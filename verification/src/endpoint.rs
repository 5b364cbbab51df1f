//! Transport endpoints and the recipient nonce.
//!
//! Under address reuse every witness invoice of a wallet pays the same script, so the receiver
//! tells its invoices apart by a random nonce. The nonce travels in the invoice's transport
//! endpoints as the query string `?rid_nonce=<32 hex digits>`; the proxy mailbox of an invoice
//! is keyed by the recipient ID and that nonce. The `rid_nonce` parameter is reserved: a
//! receiver refuses endpoints that already carry it.
use vstd::prelude::*;

use crate::error::{EndpointIssue, Error};
use crate::hex::{hex_decode, hex_encode, is_hex_string, lemma_hex_roundtrip, spec_hex_decode, spec_hex_encode};
use crate::types::RecipientId;

verus! {

/// Length in bytes of a recipient nonce.
pub const NONCE_LEN: usize = 16;

/// `?`
pub const QUESTION_MARK: u8 = 63;

/// `&`
pub const AMPERSAND: u8 = 38;

/// `=`
pub const EQUALS_SIGN: u8 = 61;

/// The reserved query parameter name `rid_nonce`.
pub open spec fn nonce_key() -> Seq<u8> {
    seq![114u8, 105u8, 100u8, 95u8, 110u8, 111u8, 110u8, 99u8, 101u8]
}

/// `rid_nonce=`, the start of the query string of a nonce-carrying endpoint.
pub open spec fn nonce_assignment() -> Seq<u8> {
    nonce_key().push(EQUALS_SIGN)
}

/// `i` is the position of the first `c` in `s`.
pub open spec fn first_at(s: Seq<u8>, c: u8, i: int) -> bool {
    &&& 0 <= i < s.len()
    &&& s[i] == c
    &&& forall|j: int| 0 <= j < i ==> s[j] != c
}

/// The part of `e` before its first `?` and the query string after it, or `None` where `e`
/// has no `?`.
pub open spec fn split_query(e: Seq<u8>) -> Option<(Seq<u8>, Seq<u8>)> {
    if exists|i: int| first_at(e, QUESTION_MARK, i) {
        let i = choose|i: int| first_at(e, QUESTION_MARK, i);
        Some((e.take(i), e.skip(i + 1)))
    } else {
        None
    }
}

/// A parameter of the query string `q` starts at `i` and its name is `rid_nonce`.
pub open spec fn nonce_param_at(q: Seq<u8>, i: int) -> bool {
    &&& 0 <= i
    &&& i + 9 <= q.len()
    &&& (i == 0 || q[i - 1] == AMPERSAND)
    &&& q.subrange(i, i + 9) == nonce_key()
    &&& (i + 9 == q.len() || q[i + 9] == EQUALS_SIGN || q[i + 9] == AMPERSAND)
}

/// The query string `q` has a parameter named `rid_nonce`.
pub open spec fn has_nonce_param(q: Seq<u8>) -> bool {
    exists|i: int| nonce_param_at(q, i)
}

/// The endpoint `e` carries the reserved `rid_nonce` parameter.
pub open spec fn carries_reserved_param(e: Seq<u8>) -> bool {
    match split_query(e) {
        Some((_, q)) => has_nonce_param(q),
        None => false,
    }
}

/// The endpoint without nonce and the nonce that an endpoint carries; `None` where it carries
/// the reserved parameter in any form but `?rid_nonce=<32 hex digits>` as the whole query
/// string. An endpoint without the parameter is handed back whole, with no nonce.
pub open spec fn spec_extract_recipient_nonce(e: Seq<u8>) -> Option<(Seq<u8>, Option<Seq<u8>>)> {
    match split_query(e) {
        None => Some((e, None)),
        Some((base, q)) => {
            if !has_nonce_param(q) {
                Some((e, None))
            } else if q.len() == 10 + 2 * NONCE_LEN && q.take(10) == nonce_assignment()
                && spec_hex_decode(q.skip(10)) is Some {
                Some((base, Some(spec_hex_decode(q.skip(10)).unwrap())))
            } else {
                None
            }
        },
    }
}

/// The bytes of an optional byte vector.
pub open spec fn opt_bytes(o: Option<Vec<u8>>) -> Option<Seq<u8>> {
    match o {
        Some(v) => Some(v@),
        None => None,
    }
}

/// `e` followed by `?rid_nonce=` and the nonce in lower-case hex.
pub open spec fn spec_add_recipient_nonce(e: Seq<u8>, nonce: Seq<u8>) -> Seq<u8> {
    e.push(QUESTION_MARK) + nonce_assignment() + spec_hex_encode(nonce)
}

/// Why a list of endpoints is refused by a receiver, or `None` where it is accepted. Every
/// receive refuses the reserved parameter; a witness receive under address reuse (where the
/// nonce takes the query string) also needs at least one endpoint and refuses any query
/// string.
pub open spec fn spec_endpoints_issue(endpoints: Seq<Seq<u8>>, carries_nonce: bool) -> Option<
    EndpointIssue,
> {
    if exists|k: int| 0 <= k < endpoints.len() && carries_reserved_param(#[trigger] endpoints[k]) {
        Some(EndpointIssue::ReservedParameter)
    } else if carries_nonce && endpoints.len() == 0 {
        Some(EndpointIssue::MissingEndpoint)
    } else if carries_nonce && exists|k: int|
        0 <= k < endpoints.len() && (#[trigger] endpoints[k]).contains(QUESTION_MARK) {
        Some(EndpointIssue::QueryString)
    } else {
        None
    }
}

/// The proxy mailbox key of an invoice: its recipient ID and the nonce (empty where there is
/// none).
#[derive(Debug)]
pub struct ProxyKey {
    pub recipient_id: RecipientId,
    pub nonce: Vec<u8>,
}

impl ProxyKey {
    /// The key as plain values.
    pub open spec fn view_key(&self) -> (RecipientId, Seq<u8>) {
        (self.recipient_id, self.nonce@)
    }
}

/// The position of the first `c` in `s`.
pub fn find_byte(s: &[u8], c: u8) -> (res: Option<usize>)
    ensures
        match res {
            Some(i) => first_at(s@, c, i as int),
            None => !s@.contains(c),
        },
{
    let mut i: usize = 0;
    while i < s.len()
        invariant
            i <= s.len(),
            forall|j: int| 0 <= j < i ==> s@[j] != c,
        decreases s.len() - i,
    {
        if s[i] == c {
            return Some(i);
        }
        i = i + 1;
    }
    None
}

proof fn lemma_first_at_unique(s: Seq<u8>, c: u8, i: int, j: int)
    requires
        first_at(s, c, i),
        first_at(s, c, j),
    ensures
        i == j,
{
}

fn matches_nonce_key(q: &[u8], i: usize) -> (res: bool)
    requires
        i + 9 <= q.len(),
    ensures
        res == (q@.subrange(i as int, i + 9) == nonce_key()),
{
    let key: [u8; 9] = [114, 105, 100, 95, 110, 111, 110, 99, 101];
    let mut k: usize = 0;
    while k < 9
        invariant
            k <= 9,
            i + 9 <= q.len(),
            key@ == nonce_key(),
            forall|j: int| 0 <= j < k ==> q@[i + j] == nonce_key()[j],
        decreases 9 - k,
    {
        if q[i + k] != key[k] {
            assert(q@.subrange(i as int, i + 9)[k as int] != nonce_key()[k as int]);
            return false;
        }
        k = k + 1;
    }
    assert(q@.subrange(i as int, i + 9) =~= nonce_key());
    true
}

/// Whether the query string `q` has a parameter named `rid_nonce`.
pub fn query_has_nonce_param(q: &[u8]) -> (res: bool)
    ensures
        res == has_nonce_param(q@),
{
    if q.len() < 9 {
        return false;
    }
    let mut i: usize = 0;
    while i <= q.len() - 9
        invariant
            9 <= q.len(),
            i <= q.len() - 8,
            forall|j: int| 0 <= j < i ==> !nonce_param_at(q@, j),
        decreases q.len() - i,
    {
        let starts = i == 0 || q[i - 1] == AMPERSAND;
        if starts && matches_nonce_key(q, i) {
            let ends = i + 9 == q.len() || q[i + 9] == EQUALS_SIGN || q[i + 9] == AMPERSAND;
            if ends {
                assert(nonce_param_at(q@, i as int));
                return true;
            }
        }
        i = i + 1;
    }
    assert forall|j: int| !nonce_param_at(q@, j) by {
        if 0 <= j < i {
        }
    }
    false
}

/// The endpoint `e` split at its first `?`.
fn split_at_query(e: &[u8]) -> (res: Option<(usize, &[u8], &[u8])>)
    ensures
        match res {
            Some((i, base, q)) => {
                &&& first_at(e@, QUESTION_MARK, i as int)
                &&& split_query(e@) == Some((base@, q@))
            },
            None => split_query(e@) is None,
        },
{
    match find_byte(e, QUESTION_MARK) {
        Some(i) => {
            let n = e.len();
            assert(i < n);
            proof {
                assert forall|j: int| first_at(e@, QUESTION_MARK, j) implies j == i by {
                    lemma_first_at_unique(e@, QUESTION_MARK, i as int, j);
                }
            }
            let base = &e[0..i];
            let q = &e[i + 1..n];
            assert(base@ =~= e@.take(i as int));
            assert(q@ =~= e@.skip(i + 1));
            Some((i, base, q))
        },
        None => {
            assert(!exists|i: int| first_at(e@, QUESTION_MARK, i));
            None
        },
    }
}

/// Whether the endpoint `e` carries the reserved `rid_nonce` parameter.
pub fn endpoint_carries_reserved_param(e: &[u8]) -> (res: bool)
    ensures
        res == carries_reserved_param(e@),
{
    match split_at_query(e) {
        Some((_, _, q)) => query_has_nonce_param(q),
        None => false,
    }
}

fn slice_to_vec(s: &[u8]) -> (v: Vec<u8>)
    ensures
        v@ == s@,
{
    let mut v: Vec<u8> = Vec::new();
    let mut i: usize = 0;
    while i < s.len()
        invariant
            i <= s.len(),
            v@ == s@.take(i as int),
        decreases s.len() - i,
    {
        v.push(s[i]);
        i = i + 1;
        assert(v@ =~= s@.take(i as int));
    }
    assert(s@.take(s.len() as int) =~= s@);
    v
}

/// Splits a transport endpoint from an invoice into the endpoint without nonce and the nonce
/// it carries: `Ok((e, None))` for an endpoint without the `rid_nonce` parameter, `Ok((base,
/// Some(nonce)))` for `base?rid_nonce=<32 hex digits>`, and an error for any other use of the
/// parameter (a nonce of the wrong length, another parameter beside it).
pub fn extract_recipient_nonce(e: &[u8]) -> (res: Result<(Vec<u8>, Option<Vec<u8>>), Error>)
    ensures
        match res {
            Ok((base, nonce)) => spec_extract_recipient_nonce(e@) == Some(
                (base@, opt_bytes(nonce)),
            ),
            Err(err) => {
                &&& spec_extract_recipient_nonce(e@) is None
                &&& err == Error::InvalidTransportEndpoints { details: EndpointIssue::MalformedNonce }
            },
        },
{
    match split_at_query(e) {
        None => Ok((slice_to_vec(e), None)),
        Some((_, base, q)) => {
            if !query_has_nonce_param(q) {
                return Ok((slice_to_vec(e), None));
            }
            if q.len() != 10 + 2 * NONCE_LEN {
                return Err(Error::InvalidTransportEndpoints { details: EndpointIssue::MalformedNonce });
            }
            let head = &q[0..10];
            let is_assignment = matches_nonce_key(head, 0) && head[9] == EQUALS_SIGN;
            proof {
                if is_assignment {
                    assert(q@.take(10) =~= nonce_assignment()) by {
                        assert(head@.subrange(0, 9) =~= q@.take(10).take(9));
                    }
                } else {
                    if q@.take(10) == nonce_assignment() {
                        assert(head@ =~= q@.take(10));
                        assert(head@.subrange(0, 9) =~= nonce_key());
                        assert(head@[9] == EQUALS_SIGN);
                    }
                }
            }
            if !is_assignment {
                return Err(Error::InvalidTransportEndpoints { details: EndpointIssue::MalformedNonce });
            }
            let digits = &q[10..q.len()];
            assert(digits@ =~= q@.skip(10));
            match hex_decode(digits) {
                Some(nonce) => Ok((slice_to_vec(base), Some(nonce))),
                None => Err(Error::InvalidTransportEndpoints { details: EndpointIssue::MalformedNonce }),
            }
        },
    }
}

/// Appends `?rid_nonce=` and the nonce in lower-case hex to an endpoint.
pub fn add_recipient_nonce(e: &[u8], nonce: &[u8]) -> (res: Vec<u8>)
    ensures
        res@ == spec_add_recipient_nonce(e@, nonce@),
{
    let mut res = slice_to_vec(e);
    res.push(QUESTION_MARK);
    let key: [u8; 9] = [114, 105, 100, 95, 110, 111, 110, 99, 101];
    let mut k: usize = 0;
    while k < 9
        invariant
            k <= 9,
            key@ == nonce_key(),
            res@ == e@.push(QUESTION_MARK) + nonce_key().take(k as int),
        decreases 9 - k,
    {
        res.push(key[k]);
        k = k + 1;
        assert(res@ =~= e@.push(QUESTION_MARK) + nonce_key().take(k as int));
    }
    res.push(EQUALS_SIGN);
    let digits = hex_encode(nonce);
    let mut k: usize = 0;
    let ghost start = res@;
    assert(start =~= e@.push(QUESTION_MARK) + nonce_assignment());
    while k < digits.len()
        invariant
            k <= digits.len(),
            res@ == start + digits@.take(k as int),
        decreases digits.len() - k,
    {
        res.push(digits[k]);
        k = k + 1;
        assert(res@ =~= start + digits@.take(k as int));
    }
    assert(digits@.take(digits@.len() as int) =~= digits@);
    res
}

/// Why a receiver refuses the transport endpoints of a new invoice, if it does: see
/// `spec_endpoints_issue`. `carries_nonce` is set for a witness receive under address reuse.
pub fn endpoints_issue(endpoints: &Vec<Vec<u8>>, carries_nonce: bool) -> (res: Option<EndpointIssue>)
    ensures
        res == spec_endpoints_issue(endpoints_view(endpoints@), carries_nonce),
{
    let ghost es = endpoints@.map_values(|e: Vec<u8>| e@);
    let mut k: usize = 0;
    let mut has_query = false;
    while k < endpoints.len()
        invariant
            k <= endpoints.len(),
            es == endpoints@.map_values(|e: Vec<u8>| e@),
            forall|j: int| 0 <= j < k ==> !carries_reserved_param(#[trigger] es[j]),
            has_query == exists|j: int| 0 <= j < k && (#[trigger] es[j]).contains(QUESTION_MARK),
        decreases endpoints.len() - k,
    {
        let e = endpoints[k].as_slice();
        if endpoint_carries_reserved_param(e) {
            assert(carries_reserved_param(es[k as int]));
            return Some(EndpointIssue::ReservedParameter);
        }
        let q = find_byte(e, QUESTION_MARK);
        proof {
            if q is Some {
                assert(es[k as int].contains(QUESTION_MARK)) by {
                    assert(es[k as int][q.unwrap() as int] == QUESTION_MARK);
                }
            }
        }
        has_query = has_query || q.is_some();
        k = k + 1;
    }
    if carries_nonce && endpoints.len() == 0 {
        Some(EndpointIssue::MissingEndpoint)
    } else if carries_nonce && has_query {
        Some(EndpointIssue::QueryString)
    } else {
        None
    }
}

/// The proxy mailbox key for an invoice with the given recipient ID and nonce (empty where the
/// invoice carries none).
pub fn derive_proxy_recipient_id(recipient_id: &RecipientId, nonce: &[u8]) -> (res: ProxyKey)
    ensures
        res.view_key() == (*recipient_id, nonce@),
{
    ProxyKey { recipient_id: *recipient_id, nonce: slice_to_vec(nonce) }
}


/// The byte strings of a list of endpoints.
pub open spec fn endpoints_view(eps: Seq<Vec<u8>>) -> Seq<Seq<u8>> {
    eps.map_values(|e: Vec<u8>| e@)
}

/// A copy of a list of endpoints.
pub fn copy_endpoints(eps: &Vec<Vec<u8>>) -> (res: Vec<Vec<u8>>)
    ensures
        endpoints_view(res@) == endpoints_view(eps@),
{
    let mut res: Vec<Vec<u8>> = Vec::new();
    let mut k: usize = 0;
    while k < eps.len()
        invariant
            k <= eps.len(),
            res@.len() == k,
            forall|j: int| 0 <= j < k ==> (#[trigger] res@[j])@ == eps@[j]@,
        decreases eps.len() - k,
    {
        res.push(slice_to_vec(eps[k].as_slice()));
        k = k + 1;
    }
    assert(endpoints_view(res@) =~= endpoints_view(eps@));
    res
}

/// Each endpoint of a list with the nonce added.
pub fn add_recipient_nonce_to_all(eps: &Vec<Vec<u8>>, nonce: &[u8]) -> (res: Vec<Vec<u8>>)
    ensures
        endpoints_view(res@) == endpoints_view(eps@).map_values(
            |e: Seq<u8>| spec_add_recipient_nonce(e, nonce@),
        ),
{
    let mut res: Vec<Vec<u8>> = Vec::new();
    let mut k: usize = 0;
    while k < eps.len()
        invariant
            k <= eps.len(),
            res@.len() == k,
            forall|j: int|
                0 <= j < k ==> (#[trigger] res@[j])@ == spec_add_recipient_nonce(eps@[j]@, nonce@),
        decreases eps.len() - k,
    {
        res.push(add_recipient_nonce(eps[k].as_slice(), nonce));
        k = k + 1;
    }
    assert(endpoints_view(res@) =~= endpoints_view(eps@).map_values(
        |e: Seq<u8>| spec_add_recipient_nonce(e, nonce@),
    ));
    res
}

/// A copy of a byte string.
pub fn copy_bytes(s: &[u8]) -> (v: Vec<u8>)
    ensures
        v@ == s@,
{
    slice_to_vec(s)
}

/// Law: an endpoint without a query string, with a nonce of the right length added, splits
/// back into that endpoint and that nonce.
pub proof fn lemma_nonce_roundtrip(e: Seq<u8>, nonce: Seq<u8>)
    requires
        !e.contains(QUESTION_MARK),
        nonce.len() == NONCE_LEN,
    ensures
        spec_extract_recipient_nonce(spec_add_recipient_nonce(e, nonce)) == Some((e, Some(nonce))),
{
    let full = spec_add_recipient_nonce(e, nonce);
    let i = e.len() as int;
    assert(full[i] == QUESTION_MARK);
    assert forall|j: int| 0 <= j < i implies full[j] != QUESTION_MARK by {
        assert(full[j] == e[j]);
        if e[j] == QUESTION_MARK {
            assert(e.contains(QUESTION_MARK));
        }
    }
    assert(first_at(full, QUESTION_MARK, i));
    assert forall|j: int| first_at(full, QUESTION_MARK, j) implies j == i by {
        lemma_first_at_unique(full, QUESTION_MARK, i, j);
    }
    let q = full.skip(i + 1);
    assert(q =~= nonce_assignment() + spec_hex_encode(nonce));
    assert(full.take(i) =~= e);
    assert(q.subrange(0, 9) =~= nonce_key());
    assert(nonce_param_at(q, 0));
    assert(q.take(10) =~= nonce_assignment());
    assert(q.skip(10) =~= spec_hex_encode(nonce));
    lemma_hex_roundtrip(nonce);
}

} // verus!
