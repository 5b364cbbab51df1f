//! The address state of one keychain.
//!
//! A keychain reveals its addresses in index order. Without address reuse every request for an
//! address reveals the next one. With address reuse the wallet keeps using its pinned address,
//! the last one revealed (revealing index 0 first where none was), until a rotation reveals
//! and pins the next one.
use vstd::prelude::*;

use crate::error::Error;

verus! {

/// The number of non-hardened derivation indices.
pub const MAX_REVEALED: u32 = 0x8000_0000;

/// How many addresses of a keychain have been revealed: indices `0..revealed`.
#[derive(Debug, Clone, Copy, PartialEq, Eq, Structural)]
pub struct KeychainState {
    pub revealed: u32,
}

/// The index that an address request returns on a keychain with `revealed` addresses, and the
/// count afterwards; `None` where the keychain is exhausted.
pub open spec fn spec_address_index(revealed: u32, reuse: bool) -> Option<(u32, u32)> {
    if reuse && revealed > 0 {
        Some(((revealed - 1) as u32, revealed))
    } else if revealed < MAX_REVEALED {
        Some((revealed, (revealed + 1) as u32))
    } else {
        None
    }
}

impl KeychainState {
    /// The keychain holds at most the non-hardened indices.
    pub open spec fn wf(&self) -> bool {
        self.revealed <= MAX_REVEALED
    }

    /// A keychain with nothing revealed.
    pub fn new() -> (res: KeychainState)
        ensures
            res.revealed == 0,
    {
        KeychainState { revealed: 0 }
    }

    /// The last revealed index, if any.
    pub fn last_revealed(&self) -> (res: Option<u32>)
        ensures
            res == (if self.revealed == 0 {
                None::<u32>
            } else {
                Some((self.revealed - 1) as u32)
            }),
    {
        if self.revealed == 0 {
            None
        } else {
            Some(self.revealed - 1)
        }
    }

    /// Reveals the next index and returns it.
    pub fn reveal_next(&mut self) -> (res: Result<u32, Error>)
        requires
            old(self).wf(),
        ensures
            final(self).wf(),
            match res {
                Ok(i) => {
                    &&& i == old(self).revealed
                    &&& final(self).revealed == old(self).revealed + 1
                },
                Err(e) => {
                    &&& e == Error::KeychainExhausted
                    &&& old(self).revealed == MAX_REVEALED
                    &&& *final(self) == *old(self)
                },
            },
    {
        if self.revealed == MAX_REVEALED {
            return Err(Error::KeychainExhausted);
        }
        self.revealed = self.revealed + 1;
        Ok(self.revealed - 1)
    }

    /// The index of the address to use: the pinned (last revealed) one under reuse, where there
    /// is one, else the next one, which is revealed.
    pub fn address_index(&mut self, reuse: bool) -> (res: Result<u32, Error>)
        requires
            old(self).wf(),
        ensures
            final(self).wf(),
            match spec_address_index(old(self).revealed, reuse) {
                Some((i, n)) => res == Ok::<u32, Error>(i) && final(self).revealed == n,
                None => res == Err::<u32, Error>(Error::KeychainExhausted) && *final(self)
                    == *old(self),
            },
    {
        if reuse && self.revealed > 0 {
            Ok(self.revealed - 1)
        } else {
            self.reveal_next()
        }
    }

    /// Applies an index handed out by a multisig hub for a rotation. An index below the ones
    /// already revealed here cannot be the new pin: the answer is `None`, and the hub is to be
    /// asked again. Otherwise every index up to it is revealed and it becomes the pin.
    pub fn apply_hub_index(&mut self, hub_index: u32) -> (res: Option<u32>)
        requires
            old(self).wf(),
            hub_index < MAX_REVEALED,
        ensures
            final(self).wf(),
            if hub_index < old(self).revealed {
                res is None && *final(self) == *old(self)
            } else {
                res == Some(hub_index) && final(self).revealed == hub_index + 1
            },
    {
        if hub_index < self.revealed {
            None
        } else {
            self.revealed = hub_index + 1;
            Some(hub_index)
        }
    }
}

/// Law: under address reuse, asking twice gives the same index and leaves the keychain as the
/// first request left it.
pub proof fn lemma_reuse_address_is_stable(revealed: u32)
    requires
        revealed <= MAX_REVEALED,
        spec_address_index(revealed, true) is Some,
    ensures
        ({
            let (i, n) = spec_address_index(revealed, true).unwrap();
            spec_address_index(n, true) == Some((i, n))
        }),
{
}

/// Law: without address reuse every request reveals an index above all that were revealed
/// before, so no address is handed out twice.
pub proof fn lemma_fresh_address_without_reuse(revealed: u32)
    requires
        spec_address_index(revealed, false) is Some,
    ensures
        ({
            let (i, n) = spec_address_index(revealed, false).unwrap();
            i == revealed && n == revealed + 1
        }),
{
}


/// Law: a wallet that turns address reuse on pins the address it revealed last: the first
/// request under reuse returns the index that the last request without reuse returned.
pub proof fn lemma_enabling_reuse_pins_last_revealed(revealed: u32)
    requires
        spec_address_index(revealed, false) is Some,
    ensures
        ({
            let (i, n) = spec_address_index(revealed, false).unwrap();
            spec_address_index(n, true) == Some((i, n))
        }),
{
}


/// Every answer before the `n`-th is below the local pin count `revealed`.
pub open spec fn answers_below(answers: Seq<u32>, n: int, revealed: u32) -> bool {
    forall|j: int| 0 <= j < n ==> (#[trigger] answers[j]) < revealed
}

/// Rotates the pin of a keychain whose indices a multisig hub hands out. `hub_indices` are the
/// hub's answers to successive bump requests. Each answer below the indices revealed here
/// cannot be the new pin, and the hub is asked again (see `apply_hub_index`); the first one that
/// is not becomes the pin. Returns it with the number of bumps it took; `None` where every
/// answer is below the local pin, and an error where the first answer ahead of it is beyond
/// the non-hardened indices.
pub fn rotate_with_hub(kc: &mut KeychainState, hub_indices: &Vec<u32>) -> (res: Result<
    Option<(u32, usize)>,
    Error,
>)
    requires
        old(kc).wf(),
    ensures
        final(kc).wf(),
        match res {
            Ok(Some((index, bumps))) => {
                &&& 1 <= bumps <= hub_indices@.len()
                &&& answers_below(hub_indices@, bumps - 1, old(kc).revealed)
                &&& index == hub_indices@[bumps - 1]
                &&& old(kc).revealed <= index < MAX_REVEALED
                &&& final(kc).revealed == index + 1
            },
            Ok(None) => answers_below(hub_indices@, hub_indices@.len() as int, old(kc).revealed)
                && *final(kc) == *old(kc),
            Err(e) => e == Error::KeychainExhausted && *final(kc) == *old(kc) && exists|n: int|
                0 <= n < hub_indices@.len() && answers_below(hub_indices@, n, old(kc).revealed)
                    && hub_indices@[n] >= MAX_REVEALED,
        },
{
    let mut k: usize = 0;
    while k < hub_indices.len()
        invariant
            k <= hub_indices@.len(),
            *kc == *old(kc),
            kc.wf(),
            answers_below(hub_indices@, k as int, kc.revealed),
        decreases hub_indices@.len() - k,
    {
        let answer = hub_indices[k];
        if answer >= kc.revealed {
            if answer >= MAX_REVEALED {
                return Err(Error::KeychainExhausted);
            }
            let _ = kc.apply_hub_index(answer);
            return Ok(Some((answer, k + 1)));
        }
        k = k + 1;
    }
    Ok(None)
}

} // verus!
