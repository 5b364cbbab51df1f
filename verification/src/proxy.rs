//! The proxy through which a sender hands a consignment to the receiver, and the receiver
//! accepts (ACK) or refuses (NACK) it. Mailboxes are keyed by `ProxyKey`.
use vstd::prelude::*;

use crate::endpoint::ProxyKey;
use crate::error::Error;
use crate::types::{RecipientId, Script};

verus! {

/// What a transfer hands the receiver: the asset and amount, the transaction that carries it,
/// and where it lands: the witness output `vout` of that transaction, whose script is
/// `script`, or the receiver's blinded seal. `btc_amount` is the bitcoin of a witness output.
#[derive(Debug, Clone, Copy, PartialEq, Eq, Structural)]
pub struct Consignment {
    pub asset_id: u64,
    pub amount: u64,
    pub txid: u64,
    pub vout: Option<u32>,
    pub script: Option<Script>,
    pub seal: Option<u64>,
    pub btc_amount: u64,
}

/// A mailbox: the consignment posted under a key and the receiver's answer, if any.
#[derive(Debug)]
pub struct ProxyEntry {
    pub key: ProxyKey,
    pub consignment: Consignment,
    pub ack: Option<bool>,
}

/// The proxy's mailboxes.
#[derive(Debug)]
pub struct Proxy {
    pub entries: Vec<ProxyEntry>,
}

/// Whether two keys are the same.
pub fn keys_equal(a: &ProxyKey, b: &ProxyKey) -> (res: bool)
    ensures
        res == (a.view_key() == b.view_key()),
{
    if a.recipient_id != b.recipient_id || a.nonce.len() != b.nonce.len() {
        return false;
    }
    let mut k: usize = 0;
    while k < a.nonce.len()
        invariant
            k <= a.nonce@.len(),
            a.nonce@.len() == b.nonce@.len(),
            forall|j: int| 0 <= j < k ==> a.nonce@[j] == b.nonce@[j],
        decreases a.nonce@.len() - k,
    {
        if a.nonce[k] != b.nonce[k] {
            return false;
        }
        k = k + 1;
    }
    assert(a.nonce@ =~= b.nonce@);
    true
}

/// A copy of a key.
pub fn copy_key(key: &ProxyKey) -> (res: ProxyKey)
    ensures
        res.view_key() == key.view_key(),
{
    crate::endpoint::derive_proxy_recipient_id(&key.recipient_id, key.nonce.as_slice())
}

/// The mailbox `i` is keyed by `key`.
pub open spec fn entry_has_key(entries: Seq<ProxyEntry>, i: int, key: (RecipientId, Seq<u8>)) -> bool {
    0 <= i < entries.len() && entries[i].key.view_key() == key
}

/// The mailbox keyed by `key`: its consignment and the receiver's answer, if there is one.
pub open spec fn mailbox(entries: Seq<ProxyEntry>, key: (RecipientId, Seq<u8>)) -> Option<
    (Consignment, Option<bool>),
> {
    if exists|i: int| entry_has_key(entries, i, key) {
        let i = choose|i: int| entry_has_key(entries, i, key);
        Some((entries[i].consignment, entries[i].ack))
    } else {
        None
    }
}

/// `post` is `pre` with the answer `ack` recorded in the mailbox keyed by `key`.
pub open spec fn acked(pre: Seq<ProxyEntry>, post: Seq<ProxyEntry>, key: (RecipientId, Seq<u8>), ack: bool) -> bool {
    &&& post.len() == pre.len()
    &&& forall|i: int|
        0 <= i < pre.len() ==> {
            &&& (#[trigger] post[i]).key == pre[i].key
            &&& post[i].consignment == pre[i].consignment
            &&& post[i].ack == if entry_has_key(pre, i, key) {
                Some(ack)
            } else {
                pre[i].ack
            }
        }
}

impl Proxy {
    /// Every key has one mailbox.
    pub open spec fn wf(&self) -> bool {
        forall|i: int, j: int|
            0 <= i < j < self.entries@.len() ==> (#[trigger] self.entries@[i]).key.view_key()
                != (#[trigger] self.entries@[j]).key.view_key()
    }

    /// A proxy with no mailboxes.
    pub fn new() -> (res: Proxy)
        ensures
            res.wf(),
            res.entries@.len() == 0,
    {
        Proxy { entries: Vec::new() }
    }

    /// The mailbox for `key`, if there is one.
    pub fn find(&self, key: &ProxyKey) -> (res: Option<usize>)
        ensures
            match res {
                Some(i) => entry_has_key(self.entries@, i as int, key.view_key()),
                None => forall|i: int| !entry_has_key(self.entries@, i, key.view_key()),
            },
    {
        let mut i: usize = 0;
        while i < self.entries.len()
            invariant
                i <= self.entries@.len(),
                forall|j: int| 0 <= j < i ==> !entry_has_key(self.entries@, j, key.view_key()),
            decreases self.entries@.len() - i,
        {
            if keys_equal(&self.entries[i].key, key) {
                return Some(i);
            }
            i = i + 1;
        }
        None
    }

    /// Posts a consignment under `key`; refused where the key has a mailbox already.
    pub fn post_consignment(&mut self, key: &ProxyKey, consignment: Consignment) -> (res: Result<
        (),
        Error,
    >)
        requires
            old(self).wf(),
        ensures
            final(self).wf(),
            (forall|i: int| !entry_has_key(old(self).entries@, i, key.view_key())) <==> res is Ok,
            match res {
                Ok(_) => {
                    &&& final(self).entries@.len() == old(self).entries@.len() + 1
                    &&& final(self).entries@.take(old(self).entries@.len() as int) == old(self).entries@
                    &&& final(self).entries@.last().key.view_key() == key.view_key()
                    &&& final(self).entries@.last().consignment == consignment
                    &&& final(self).entries@.last().ack is None
                },
                Err(e) => e == Error::ProxyRecipientIdInUse && *final(self) == *old(self),
            },
    {
        match self.find(key) {
            Some(_) => Err(Error::ProxyRecipientIdInUse),
            None => {
                let ghost pre = self.entries@;
                self.entries.push(ProxyEntry { key: copy_key(key), consignment, ack: None });
                assert(self.entries@.take(pre.len() as int) =~= pre);
                assert forall|i: int, j: int|
                    0 <= i < j < self.entries@.len() implies (#[trigger] self.entries@[i]).key.view_key()
                    != (#[trigger] self.entries@[j]).key.view_key() by {
                    if j == pre.len() {
                        assert(!entry_has_key(pre, i, key.view_key()));
                    }
                }
                Ok(())
            },
        }
    }

    /// The consignment posted under `key` and its answer, if there is a mailbox.
    pub fn get_consignment(&self, key: &ProxyKey) -> (res: Option<(Consignment, Option<bool>)>)
        requires
            self.wf(),
        ensures
            res == mailbox(self.entries@, key.view_key()),
    {
        match self.find(key) {
            Some(i) => {
                proof {
                    let j = choose|j: int| entry_has_key(self.entries@, j, key.view_key());
                    assert(j == i as int) by {
                        if j < i {
                            assert(self.entries@[j].key.view_key() != self.entries@[i as int].key.view_key());
                        } else if i < j {
                            assert(self.entries@[i as int].key.view_key() != self.entries@[j].key.view_key());
                        }
                    }
                }
                Some((self.entries[i].consignment, self.entries[i].ack))
            },
            None => None,
        }
    }

    /// Records the receiver's answer in the mailbox for `key`.
    pub fn set_ack(&mut self, key: &ProxyKey, ack: bool) -> (res: Result<(), Error>)
        requires
            old(self).wf(),
        ensures
            final(self).wf(),
            final(self).entries@.len() == old(self).entries@.len(),
            (exists|i: int| entry_has_key(old(self).entries@, i, key.view_key())) <==> res is Ok,
            match res {
                Ok(_) => acked(old(self).entries@, final(self).entries@, key.view_key(), ack),
                Err(e) => e == Error::ProxyUnknownRecipientId && *final(self) == *old(self),
            },
    {
        match self.find(key) {
            None => Err(Error::ProxyUnknownRecipientId),
            Some(i) => {
                let ghost pre = self.entries@;
                let mut entry = self.entries.remove(i);
                entry.ack = Some(ack);
                self.entries.insert(i, entry);
                assert forall|j: int| 0 <= j < pre.len() implies {
                    &&& (#[trigger] self.entries@[j]).key == pre[j].key
                    &&& self.entries@[j].consignment == pre[j].consignment
                    &&& self.entries@[j].ack == if entry_has_key(pre, j, key.view_key()) {
                        Some(ack)
                    } else {
                        pre[j].ack
                    }
                } by {
                    if j != i as int && entry_has_key(pre, j, key.view_key()) {
                        if j < i {
                            assert(pre[j].key.view_key() != pre[i as int].key.view_key());
                        } else {
                            assert(pre[i as int].key.view_key() != pre[j].key.view_key());
                        }
                    }
                }
                Ok(())
            },
        }
    }
}

} // verus!
