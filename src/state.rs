use vstd::prelude::*;
use vstd::bytes::{
    spec_u32_from_le_bytes, spec_u32_to_le_bytes, spec_u64_from_le_bytes, spec_u64_to_le_bytes,
    lemma_auto_spec_u32_to_from_le_bytes, lemma_auto_spec_u64_to_from_le_bytes, u32_from_le_bytes,
    u32_to_le_bytes, u64_from_le_bytes, u64_to_le_bytes,
};
use vstd::slice::slice_subrange;
use crate::bytes::{
    all_len, bytes_equal, flatten, push_bytes, read_array,
};
use crate::error::RelayError;

verus! {

/// A ledger public key.
pub type Pubkey = [u8; 32];

/// A transfer request identifier.
pub type RequestId = [u8; 16];

/// An address on the foreign chain.
pub type ForeignAddress = [u8; 32];

/// Size of the storage window that holds the encoded contract state.
pub const STATE_LEN: usize = 2000;

/// Most requests that may be pending at once.
pub const MAX_IDLE_REQUESTS_COUNT: usize = 100;

/// Offset of the oracle count: after the four fixed keys.
pub const ORACLES_OFFSET: usize = 128;

/// Status of a transfer request.
#[derive(Clone, Copy, Debug, PartialEq, Eq, Structural)]
pub enum RequestStatus {
    Unset,
    New,
    Rejected,
    Returned,
    Success,
}

/// Byte that encodes a status.
pub open spec fn status_code(s: RequestStatus) -> u8 {
    match s {
        RequestStatus::Unset => 0,
        RequestStatus::New => 1,
        RequestStatus::Rejected => 2,
        RequestStatus::Returned => 3,
        RequestStatus::Success => 4,
    }
}

/// Status that a valid byte encodes.
pub open spec fn status_of_code(b: u8) -> RequestStatus {
    if b == 0 {
        RequestStatus::Unset
    } else if b == 1 {
        RequestStatus::New
    } else if b == 2 {
        RequestStatus::Rejected
    } else if b == 3 {
        RequestStatus::Returned
    } else {
        RequestStatus::Success
    }
}

/// A record of tokens locked here, waiting for release on the foreign chain.
#[derive(Clone, Copy, Debug)]
pub struct WrapRequest {
    pub token_mint: Pubkey,
    pub origin_address: Pubkey,
    pub destination_address: ForeignAddress,
    pub destination_chain: [u8; 3],
    pub amount: u64,
}

/// A request with its keys as byte strings.
pub struct WrapRequestView {
    pub token_mint: Seq<u8>,
    pub origin_address: Seq<u8>,
    pub destination_address: Seq<u8>,
    pub destination_chain: Seq<u8>,
    pub amount: u64,
}

impl View for WrapRequest {
    type V = WrapRequestView;

    open spec fn view(&self) -> WrapRequestView {
        WrapRequestView {
            token_mint: self.token_mint@,
            origin_address: self.origin_address@,
            destination_address: self.destination_address@,
            destination_chain: self.destination_chain@,
            amount: self.amount,
        }
    }
}

impl WrapRequestView {
    pub open spec fn wf(self) -> bool {
        &&& self.token_mint.len() == 32
        &&& self.origin_address.len() == 32
        &&& self.destination_address.len() == 32
        &&& self.destination_chain.len() == 3
    }

    /// Encoding: the four fields in order, the amount little-endian.
    pub open spec fn encode(self) -> Seq<u8> {
        self.token_mint + self.origin_address + self.destination_address + self.destination_chain
            + spec_u64_to_le_bytes(self.amount)
    }
}

/// The persisted state of one relay contract.
#[derive(Clone, Debug)]
pub struct RelayContract {
    pub nebula_address: Pubkey,
    pub token_address: Pubkey,
    pub token_mint: Pubkey,
    pub initializer_pubkey: Pubkey,
    pub oracles: Vec<Pubkey>,
    pub swap_status: Vec<(RequestId, RequestStatus)>,
    pub requests: Vec<(RequestId, WrapRequest)>,
    pub is_state_initialized: bool,
    pub requests_queue: Vec<RequestId>,
}

/// The contract state with keys as byte strings and lists as sequences.
pub struct RelayContractView {
    pub nebula_address: Seq<u8>,
    pub token_address: Seq<u8>,
    pub token_mint: Seq<u8>,
    pub initializer_pubkey: Seq<u8>,
    pub oracles: Seq<Seq<u8>>,
    pub swap_status: Seq<(Seq<u8>, RequestStatus)>,
    pub requests: Seq<(Seq<u8>, WrapRequestView)>,
    pub is_state_initialized: bool,
    pub requests_queue: Seq<Seq<u8>>,
}

impl View for RelayContract {
    type V = RelayContractView;

    open spec fn view(&self) -> RelayContractView {
        RelayContractView {
            nebula_address: self.nebula_address@,
            token_address: self.token_address@,
            token_mint: self.token_mint@,
            initializer_pubkey: self.initializer_pubkey@,
            oracles: self.oracles@.map_values(|k: Pubkey| k@),
            swap_status: self.swap_status@.map_values(|e: (RequestId, RequestStatus)| (e.0@, e.1)),
            requests: self.requests@.map_values(|e: (RequestId, WrapRequest)| (e.0@, e.1@)),
            is_state_initialized: self.is_state_initialized,
            requests_queue: self.requests_queue@.map_values(|k: RequestId| k@),
        }
    }
}

/// No two entries share a key.
pub open spec fn keys_unique<V>(s: Seq<(Seq<u8>, V)>) -> bool {
    forall|i: int, j: int| 0 <= i < s.len() && 0 <= j < s.len() && i != j ==> #[trigger] s[i].0
        != #[trigger] s[j].0
}

/// Whether some entry has key `k`.
pub open spec fn has_key<V>(s: Seq<(Seq<u8>, V)>, k: Seq<u8>) -> bool {
    exists|i: int| 0 <= i < s.len() && #[trigger] s[i].0 == k
}

/// The entries after setting key `k` to `v`: in place where `k` is present, else at the end.
pub open spec fn set_entry<V>(s: Seq<(Seq<u8>, V)>, k: Seq<u8>, v: V) -> Seq<(Seq<u8>, V)> {
    if has_key(s, k) {
        let i = choose|i: int| 0 <= i < s.len() && #[trigger] s[i].0 == k;
        s.update(i, (k, v))
    } else {
        s.push((k, v))
    }
}

/// Four bytes little-endian of a count.
pub open spec fn count_bytes(n: nat) -> Seq<u8> {
    spec_u32_to_le_bytes(n as u32)
}

pub open spec fn status_entry_bytes(e: (Seq<u8>, RequestStatus)) -> Seq<u8> {
    e.0 + seq![status_code(e.1)]
}

pub open spec fn request_entry_bytes(e: (Seq<u8>, WrapRequestView)) -> Seq<u8> {
    e.0 + e.1.encode()
}

impl RelayContractView {
    /// Field lengths, counts that fit in four bytes, and unique keys in both maps.
    pub open spec fn wf(self) -> bool {
        &&& self.nebula_address.len() == 32
        &&& self.token_address.len() == 32
        &&& self.token_mint.len() == 32
        &&& self.initializer_pubkey.len() == 32
        &&& all_len(self.oracles, 32)
        &&& forall|i: int| 0 <= i < self.swap_status.len() ==> (#[trigger] self.swap_status[i]).0.len() == 16
        &&& forall|i: int|
            0 <= i < self.requests.len() ==> (#[trigger] self.requests[i]).0.len() == 16
                && self.requests[i].1.wf()
        &&& all_len(self.requests_queue, 16)
        &&& self.oracles.len() <= u32::MAX
        &&& self.swap_status.len() <= u32::MAX
        &&& self.requests.len() <= u32::MAX
        &&& self.requests_queue.len() <= u32::MAX
        &&& keys_unique(self.swap_status)
        &&& keys_unique(self.requests)
    }

    /// The binary layout: the four keys, then each list as a four-byte count and its
    /// entries, the flag as one byte before the queue.
    pub open spec fn encode(self) -> Seq<u8> {
        self.nebula_address + self.token_address + self.token_mint + self.initializer_pubkey
            + count_bytes(self.oracles.len()) + flatten(self.oracles)
            + count_bytes(self.swap_status.len())
            + flatten(self.swap_status.map_values(|e: (Seq<u8>, RequestStatus)| status_entry_bytes(e)))
            + count_bytes(self.requests.len())
            + flatten(self.requests.map_values(|e: (Seq<u8>, WrapRequestView)| request_entry_bytes(e)))
            + seq![if self.is_state_initialized { 1u8 } else { 0u8 }]
            + count_bytes(self.requests_queue.len()) + flatten(self.requests_queue)
    }
}


/// Appends a count as four bytes, little-endian.
fn push_count(out: &mut Vec<u8>, n: usize)
    requires
        n <= u32::MAX,
    ensures
        final(out)@ == old(out)@ + count_bytes(n as nat),
{
    let b = u32_to_le_bytes(n as u32);
    push_bytes(out, b.as_slice());
}

fn status_to_code(s: RequestStatus) -> (r: u8)
    ensures
        r == status_code(s),
{
    match s {
        RequestStatus::Unset => 0,
        RequestStatus::New => 1,
        RequestStatus::Rejected => 2,
        RequestStatus::Returned => 3,
        RequestStatus::Success => 4,
    }
}

impl RelayContract {
    /// Encodes the state in its binary layout.
    pub fn pack(&self) -> (r: Vec<u8>)
        requires
            self@.wf(),
        ensures
            r@ == self@.encode(),
    {
        let ghost v = self@;
        let mut out: Vec<u8> = Vec::new();
        push_bytes(&mut out, self.nebula_address.as_slice());
        push_bytes(&mut out, self.token_address.as_slice());
        push_bytes(&mut out, self.token_mint.as_slice());
        push_bytes(&mut out, self.initializer_pubkey.as_slice());
        push_count(&mut out, self.oracles.len());
        let ghost base = out@;
        let mut i: usize = 0;
        while i < self.oracles.len()
            invariant
                v == self@,
                i <= self.oracles@.len(),
                out@ == base + flatten(v.oracles.take(i as int)),
            decreases self.oracles@.len() - i,
        {
            push_bytes(&mut out, self.oracles[i].as_slice());
            proof {
                assert(v.oracles.take(i + 1).drop_last() =~= v.oracles.take(i as int));
                assert(out@ =~= base + flatten(v.oracles.take(i + 1)));
            }
            i = i + 1;
        }
        proof {
            assert(v.oracles.take(i as int) =~= v.oracles);
        }
        push_count(&mut out, self.swap_status.len());
        let ghost base = out@;
        let ghost ss = v.swap_status.map_values(|e: (Seq<u8>, RequestStatus)| status_entry_bytes(e));
        let mut i: usize = 0;
        while i < self.swap_status.len()
            invariant
                v == self@,
                ss == v.swap_status.map_values(|e: (Seq<u8>, RequestStatus)| status_entry_bytes(e)),
                i <= self.swap_status@.len(),
                out@ == base + flatten(ss.take(i as int)),
            decreases self.swap_status@.len() - i,
        {
            let e = &self.swap_status[i];
            push_bytes(&mut out, e.0.as_slice());
            out.push(status_to_code(e.1));
            proof {
                assert(ss.take(i + 1).drop_last() =~= ss.take(i as int));
                assert(out@ =~= base + flatten(ss.take(i + 1)));
            }
            i = i + 1;
        }
        proof {
            assert(ss.take(i as int) =~= ss);
        }
        push_count(&mut out, self.requests.len());
        let ghost base = out@;
        let ghost rs = v.requests.map_values(|e: (Seq<u8>, WrapRequestView)| request_entry_bytes(e));
        let mut i: usize = 0;
        while i < self.requests.len()
            invariant
                v == self@,
                rs == v.requests.map_values(|e: (Seq<u8>, WrapRequestView)| request_entry_bytes(e)),
                i <= self.requests@.len(),
                out@ == base + flatten(rs.take(i as int)),
            decreases self.requests@.len() - i,
        {
            let e = &self.requests[i];
            let ghost before = out@;
            push_bytes(&mut out, e.0.as_slice());
            push_bytes(&mut out, e.1.token_mint.as_slice());
            push_bytes(&mut out, e.1.origin_address.as_slice());
            push_bytes(&mut out, e.1.destination_address.as_slice());
            push_bytes(&mut out, e.1.destination_chain.as_slice());
            let a = u64_to_le_bytes(e.1.amount);
            push_bytes(&mut out, a.as_slice());
            proof {
                assert(out@ =~= before + rs[i as int]);
                assert(rs.take(i + 1).drop_last() =~= rs.take(i as int));
                assert(out@ =~= base + flatten(rs.take(i + 1)));
            }
            i = i + 1;
        }
        proof {
            assert(rs.take(i as int) =~= rs);
        }
        out.push(if self.is_state_initialized { 1u8 } else { 0u8 });
        push_count(&mut out, self.requests_queue.len());
        let ghost base = out@;
        let mut i: usize = 0;
        while i < self.requests_queue.len()
            invariant
                v == self@,
                i <= self.requests_queue@.len(),
                out@ == base + flatten(v.requests_queue.take(i as int)),
            decreases self.requests_queue@.len() - i,
        {
            push_bytes(&mut out, self.requests_queue[i].as_slice());
            proof {
                assert(v.requests_queue.take(i + 1).drop_last() =~= v.requests_queue.take(i as int));
                assert(out@ =~= base + flatten(v.requests_queue.take(i + 1)));
            }
            i = i + 1;
        }
        proof {
            assert(v.requests_queue.take(i as int) =~= v.requests_queue);
        }
        out
    }
}

/// The count stored little-endian in the four bytes at `p`.
pub open spec fn count_at(s: Seq<u8>, p: int) -> int {
    spec_u32_from_le_bytes(s.subrange(p, p + 4)) as int
}

/// The status byte of entry `i` of a status list whose entries start at `base`.
pub open spec fn status_byte_at(s: Seq<u8>, base: int, i: int) -> u8 {
    s[base + 17 * i + 16]
}

/// The request entry encoded at `q`.
pub open spec fn request_at(s: Seq<u8>, q: int) -> (Seq<u8>, WrapRequestView) {
    (
        s.subrange(q, q + 16),
        WrapRequestView {
            token_mint: s.subrange(q + 16, q + 48),
            origin_address: s.subrange(q + 48, q + 80),
            destination_address: s.subrange(q + 80, q + 112),
            destination_chain: s.subrange(q + 112, q + 115),
            amount: spec_u64_from_le_bytes(s.subrange(q + 115, q + 123)),
        },
    )
}

/// The state read from `s` once the four counts are known, with `p1`, `p2`, `p3` the
/// offsets of the status count, the request count and the flag.
pub open spec fn state_at(
    s: Seq<u8>,
    n1: int,
    n2: int,
    n3: int,
    n4: int,
    p1: int,
    p2: int,
    p3: int,
) -> RelayContractView {
    RelayContractView {
        nebula_address: s.subrange(0, 32),
        token_address: s.subrange(32, 64),
        token_mint: s.subrange(64, 96),
        initializer_pubkey: s.subrange(96, 128),
        oracles: Seq::new(n1 as nat, |i: int| s.subrange(132 + 32 * i, 132 + 32 * i + 32)),
        swap_status: Seq::new(
            n2 as nat,
            |i: int|
                (
                    s.subrange(p1 + 4 + 17 * i, p1 + 4 + 17 * i + 16),
                    status_of_code(status_byte_at(s, p1 + 4, i)),
                ),
        ),
        requests: Seq::new(n3 as nat, |i: int| request_at(s, p2 + 4 + 123 * i)),
        is_state_initialized: s[p3] == 1,
        requests_queue: Seq::new(n4 as nat, |i: int| s.subrange(p3 + 5 + 16 * i, p3 + 5 + 16 * i + 16)),
    }
}

/// The state whose encoding `s` begins with, if any: the layout of `encode` read back,
/// with the flag and every status byte in range and keys unique in both maps.
pub open spec fn decode_state(s: Seq<u8>) -> Option<RelayContractView> {
    if s.len() < 132 {
        None
    } else {
        let n1 = count_at(s, 128);
        let p1 = 132 + 32 * n1;
        if s.len() < p1 + 4 {
            None
        } else {
            let n2 = count_at(s, p1);
            let p2 = p1 + 4 + 17 * n2;
            if s.len() < p2 + 4 {
                None
            } else {
                let n3 = count_at(s, p2);
                let p3 = p2 + 4 + 123 * n3;
                if s.len() < p3 + 5 {
                    None
                } else {
                    let n4 = count_at(s, p3 + 1);
                    let v = state_at(s, n1, n2, n3, n4, p1, p2, p3);
                    if s.len() < p3 + 5 + 16 * n4 {
                        None
                    } else if s[p3] > 1 {
                        None
                    } else if exists|i: int| 0 <= i < n2 && #[trigger] status_byte_at(s, p1 + 4, i) > 4 {
                        None
                    } else if !keys_unique(v.swap_status) || !keys_unique(v.requests) {
                        None
                    } else {
                        Some(v)
                    }
                }
            }
        }
    }
}

proof fn lemma_bad_status(s: Seq<u8>, n1: int, p1: int, n2: int, i: int)
    requires
        s.len() >= 132,
        n1 == count_at(s, 128),
        p1 == 132 + 32 * n1,
        s.len() >= p1 + 4,
        n2 == count_at(s, p1),
        0 <= i < n2,
        status_byte_at(s, p1 + 4, i) > 4,
    ensures
        decode_state(s).is_none(),
{
    let p2 = p1 + 4 + 17 * n2;
    if s.len() >= p2 + 4 {
        let n3 = count_at(s, p2);
        let p3 = p2 + 4 + 123 * n3;
        if s.len() >= p3 + 5 {
            assert(exists|k: int| 0 <= k < n2 && #[trigger] status_byte_at(s, p1 + 4, k) > 4);
        }
    }
}

fn read_count(s: &[u8], p: usize) -> (r: usize)
    requires
        p + 4 <= s@.len(),
    ensures
        r == count_at(s@, p as int),
        r <= u32::MAX,
{
    let len = s.len();
    assert(p + 4 <= len);
    u32_from_le_bytes(slice_subrange(s, p, p + 4)) as usize
}

fn code_to_status(b: u8) -> (r: RequestStatus)
    ensures
        r == status_of_code(b),
{
    if b == 0 {
        RequestStatus::Unset
    } else if b == 1 {
        RequestStatus::New
    } else if b == 2 {
        RequestStatus::Rejected
    } else if b == 3 {
        RequestStatus::Returned
    } else {
        RequestStatus::Success
    }
}

/// Whether no two entries share an identifier.
pub fn ids_unique<V>(entries: &Vec<(RequestId, V)>) -> (r: bool)
    ensures
        r == (forall|i: int, j: int|
            0 <= i < entries@.len() && 0 <= j < entries@.len() && i != j ==> #[trigger] entries@[i].0@
                != #[trigger] entries@[j].0@),
{
    let n = entries.len();
    let mut i: usize = 0;
    while i < n
        invariant
            n == entries@.len(),
            i <= n,
            forall|a: int, b: int|
                0 <= a < i && 0 <= b < i && a != b ==> #[trigger] entries@[a].0@
                    != #[trigger] entries@[b].0@,
        decreases n - i,
    {
        let mut j: usize = 0;
        while j < i
            invariant
                n == entries@.len(),
                j <= i < n,
                forall|b: int| 0 <= b < j ==> entries@[b].0@ != entries@[i as int].0@,
            decreases i - j,
        {
            if bytes_equal(entries[j].0.as_slice(), entries[i].0.as_slice()) {
                return false;
            }
            j = j + 1;
        }
        i = i + 1;
    }
    true
}

impl RelayContract {
    /// Decodes the state that `s` begins with; trailing bytes are ignored.
    #[verifier::loop_isolation(false)]
    pub fn unpack(s: &[u8]) -> (r: Result<RelayContract, RelayError>)
        ensures
            match r {
                Ok(c) => decode_state(s@) == Some(c@),
                Err(e) => decode_state(s@).is_none() && e == RelayError::InvalidAccountData,
            },
    {
        let len = s.len();
        if len < 132 {
            return Err(RelayError::InvalidAccountData);
        }
        let nebula_address: Pubkey = read_array(s, 0);
        let token_address: Pubkey = read_array(s, 32);
        let token_mint: Pubkey = read_array(s, 64);
        let initializer_pubkey: Pubkey = read_array(s, 96);
        let n1 = read_count(s, ORACLES_OFFSET);
        if n1 > (len - 132) / 32 {
            return Err(RelayError::InvalidAccountData);
        }
        let p1 = 132 + 32 * n1;
        if len - p1 < 4 {
            return Err(RelayError::InvalidAccountData);
        }
        let mut oracles: Vec<Pubkey> = Vec::new();
        let mut i: usize = 0;
        while i < n1
            invariant
                len == s@.len(),
                p1 == 132 + 32 * n1,
                p1 + 4 <= len,
                i <= n1,
                oracles@.len() == i,
                forall|j: int| 0 <= j < i ==> #[trigger] oracles@[j]@ == s@.subrange(132 + 32 * j, 132 + 32 * j + 32),
            decreases n1 - i,
        {
            let k: Pubkey = read_array(s, 132 + 32 * i);
            oracles.push(k);
            i = i + 1;
        }
        let n2 = read_count(s, p1);
        if n2 > (len - p1 - 4) / 17 {
            return Err(RelayError::InvalidAccountData);
        }
        let p2 = p1 + 4 + 17 * n2;
        if len - p2 < 4 {
            return Err(RelayError::InvalidAccountData);
        }
        let mut swap_status: Vec<(RequestId, RequestStatus)> = Vec::new();
        let mut i: usize = 0;
        while i < n2
            invariant
                len == s@.len(),
                n1 == count_at(s@, 128),
                p1 == 132 + 32 * n1,
                p2 == p1 + 4 + 17 * n2,
                p2 + 4 <= len,
                i <= n2,
                swap_status@.len() == i,
                forall|j: int| 0 <= j < i ==> #[trigger] status_byte_at(s@, p1 + 4, j) <= 4,
                forall|j: int|
                    0 <= j < i ==> (#[trigger] swap_status@[j]).0@ == s@.subrange(
                        p1 + 4 + 17 * j,
                        p1 + 4 + 17 * j + 16,
                    ),
                forall|j: int|
                    0 <= j < i ==> (#[trigger] swap_status@[j]).1 == status_of_code(status_byte_at(s@, p1 + 4, j)),
            decreases n2 - i,
        {
            let q = p1 + 4 + 17 * i;
            let id: RequestId = read_array(s, q);
            let code = s[q + 16];
            assert(code == status_byte_at(s@, p1 + 4, i as int));
            if code > 4 {
                proof {
                    lemma_bad_status(s@, n1 as int, p1 as int, n2 as int, i as int);
                }
                return Err(RelayError::InvalidAccountData);
            }
            let st = code_to_status(code);
            let ghost old_ss = swap_status@;
            swap_status.push((id, st));
            assert(swap_status@ == old_ss.push((id, st)));
            assert(swap_status@[i as int].1 == status_of_code(status_byte_at(s@, p1 + 4, i as int)));
            assert(swap_status@[i as int].0@ == s@.subrange(q as int, q + 16));
            i = i + 1;
        }
        let n3 = read_count(s, p2);
        if n3 > (len - p2 - 4) / 123 {
            return Err(RelayError::InvalidAccountData);
        }
        let p3 = p2 + 4 + 123 * n3;
        if len - p3 < 5 {
            return Err(RelayError::InvalidAccountData);
        }
        let mut requests: Vec<(RequestId, WrapRequest)> = Vec::new();
        let mut i: usize = 0;
        while i < n3
            invariant
                len == s@.len(),
                p3 == p2 + 4 + 123 * n3,
                p3 + 5 <= len,
                i <= n3,
                requests@.len() == i,
                forall|j: int|
                    0 <= j < i ==> (#[trigger] requests@[j].0@, requests@[j].1@) == request_at(
                        s@,
                        p2 + 4 + 123 * j,
                    ),
            decreases n3 - i,
        {
            let q = p2 + 4 + 123 * i;
            let id: RequestId = read_array(s, q);
            let token_mint: Pubkey = read_array(s, q + 16);
            let origin_address: Pubkey = read_array(s, q + 48);
            let destination_address: ForeignAddress = read_array(s, q + 80);
            let destination_chain: [u8; 3] = read_array(s, q + 112);
            let amount = u64_from_le_bytes(slice_subrange(s, q + 115, q + 123));
            let w = WrapRequest {
                token_mint,
                origin_address,
                destination_address,
                destination_chain,
                amount,
            };
            requests.push((id, w));
            i = i + 1;
        }
        let flag = s[p3];
        let n4 = read_count(s, p3 + 1);
        if n4 > (len - p3 - 5) / 16 {
            return Err(RelayError::InvalidAccountData);
        }
        let mut requests_queue: Vec<RequestId> = Vec::new();
        let mut i: usize = 0;
        while i < n4
            invariant
                len == s@.len(),
                p3 + 5 + 16 * n4 <= len,
                i <= n4,
                requests_queue@.len() == i,
                forall|j: int| 0 <= j < i ==> #[trigger] requests_queue@[j]@ == s@.subrange(p3 + 5 + 16 * j, p3 + 5 + 16 * j + 16),
            decreases n4 - i,
        {
            let k: RequestId = read_array(s, p3 + 5 + 16 * i);
            requests_queue.push(k);
            i = i + 1;
        }
        if flag > 1 {
            return Err(RelayError::InvalidAccountData);
        }
        let c = RelayContract {
            nebula_address,
            token_address,
            token_mint,
            initializer_pubkey,
            oracles,
            swap_status,
            requests,
            is_state_initialized: flag == 1,
            requests_queue,
        };
        let ghost v = state_at(s@, n1 as int, n2 as int, n3 as int, n4 as int, p1 as int, p2 as int, p3 as int);
        assert(c@.oracles =~= v.oracles);
        assert(c@.swap_status =~= v.swap_status);
        assert(c@.requests =~= v.requests);
        assert(c@.requests_queue =~= v.requests_queue);
        assert(c@ == v);
        let u1 = ids_unique(&c.swap_status);
        let u2 = ids_unique(&c.requests);
        if !u1 || !u2 {
            proof {
                if !u1 {
                    let (i, j) = choose|i: int, j: int|
                        0 <= i < c.swap_status@.len() && 0 <= j < c.swap_status@.len() && i != j
                            && #[trigger] c.swap_status@[i].0@ == #[trigger] c.swap_status@[j].0@;
                    assert(v.swap_status[i].0 == v.swap_status[j].0);
                } else {
                    let (i, j) = choose|i: int, j: int|
                        0 <= i < c.requests@.len() && 0 <= j < c.requests@.len() && i != j
                            && #[trigger] c.requests@[i].0@ == #[trigger] c.requests@[j].0@;
                    assert(v.requests[i].0 == v.requests[j].0);
                }
            }
            return Err(RelayError::InvalidAccountData);
        }
        proof {
            assert forall|i: int, j: int|
                0 <= i < v.swap_status.len() && 0 <= j < v.swap_status.len() && i != j implies #[trigger] v.swap_status[i].0
                    != #[trigger] v.swap_status[j].0 by {
                assert(c.swap_status@[i].0@ != c.swap_status@[j].0@);
            }
            assert forall|i: int, j: int|
                0 <= i < v.requests.len() && 0 <= j < v.requests.len() && i != j implies #[trigger] v.requests[i].0
                    != #[trigger] v.requests[j].0 by {
                assert(c.requests@[i].0@ != c.requests@[j].0@);
            }
        }
        Ok(c)
    }
}

/// `x` is a prefix of `t`.
pub open spec fn starts_with(t: Seq<u8>, x: Seq<u8>) -> bool {
    x.len() <= t.len() && t.subrange(0, x.len() as int) == x
}

proof fn lemma_split(t: Seq<u8>, x: Seq<u8>, y: Seq<u8>)
    requires
        starts_with(t, x + y),
    ensures
        starts_with(t, x),
        t.subrange(x.len() as int, (x.len() + y.len()) as int) == y,
{
    let xy = x + y;
    assert(t.subrange(0, x.len() as int) =~= t.subrange(0, xy.len() as int).subrange(0, x.len() as int));
    assert(xy.subrange(0, x.len() as int) =~= x);
    assert(t.subrange(x.len() as int, xy.len() as int) =~= t.subrange(0, xy.len() as int).subrange(
        x.len() as int,
        xy.len() as int,
    ));
    assert(xy.subrange(x.len() as int, xy.len() as int) =~= y);
}

proof fn lemma_sub_sub(s: Seq<u8>, a: int, b: int, c: int, d: int)
    requires
        0 <= a <= b <= s.len(),
        0 <= c <= d <= b - a,
    ensures
        s.subrange(a, b).subrange(c, d) == s.subrange(a + c, a + d),
{
    assert(s.subrange(a, b).subrange(c, d) =~= s.subrange(a + c, a + d));
}

proof fn lemma_mul_bounds(i: int, k: int, n: int)
    requires
        0 <= i < n,
        0 <= k,
    ensures
        0 <= i * k,
        i * k + k <= n * k,
{
    assert(0 <= i * k && i * k + k <= n * k) by (nonlinear_arith)
        requires
            0 <= i < n,
            0 <= k,
    ;
}

proof fn lemma_piece(s: Seq<u8>, a: int, pieces: Seq<Seq<u8>>, k: nat, i: int)
    requires
        all_len(pieces, k),
        0 <= a,
        a + pieces.len() * k <= s.len(),
        s.subrange(a, a + pieces.len() * k) == flatten(pieces),
        0 <= i < pieces.len(),
    ensures
        s.subrange(a + i * k, a + i * k + k) == pieces[i],
{
    crate::bytes::lemma_flatten_fixed(pieces, k);
    let n = pieces.len() as int;
    let m = i * k;
    lemma_mul_bounds(i, k as int, n);
    assert(flatten(pieces).subrange(m, m + k) == pieces[i]);
    lemma_sub_sub(s, a, a + n * k, m, m + k);
}

proof fn lemma_count(s: Seq<u8>, a: int, n: nat)
    requires
        n <= u32::MAX,
        0 <= a,
        a + 4 <= s.len(),
        s.subrange(a, a + 4) == count_bytes(n),
    ensures
        count_at(s, a) == n,
{
    lemma_auto_spec_u32_to_from_le_bytes();
    assert(count_bytes(n).len() == 4);
    assert(spec_u32_from_le_bytes(spec_u32_to_le_bytes(n as u32)) == n as u32);
}

proof fn lemma_request_entry(s: Seq<u8>, q: int, e: (Seq<u8>, WrapRequestView))
    requires
        0 <= q,
        q + 123 <= s.len(),
        e.0.len() == 16,
        e.1.wf(),
        s.subrange(q, q + 123) == request_entry_bytes(e),
    ensures
        request_at(s, q) == e,
{
    lemma_auto_spec_u64_to_from_le_bytes();
    let t = s.subrange(q, q + 123);
    let r = e.1;
    assert(spec_u64_to_le_bytes(r.amount).len() == 8);
    assert(t.subrange(0, 16) =~= e.0);
    assert(t.subrange(16, 48) =~= r.token_mint);
    assert(t.subrange(48, 80) =~= r.origin_address);
    assert(t.subrange(80, 112) =~= r.destination_address);
    assert(t.subrange(112, 115) =~= r.destination_chain);
    assert(t.subrange(115, 123) =~= spec_u64_to_le_bytes(r.amount));
    lemma_sub_sub(s, q, q + 123, 0, 16);
    lemma_sub_sub(s, q, q + 123, 16, 48);
    lemma_sub_sub(s, q, q + 123, 48, 80);
    lemma_sub_sub(s, q, q + 123, 80, 112);
    lemma_sub_sub(s, q, q + 123, 112, 115);
    lemma_sub_sub(s, q, q + 123, 115, 123);
}

/// Decoding the encoding of a well-formed state, whatever follows it, gives that state back.
#[verifier::rlimit(50)]
pub proof fn lemma_decode_encode(v: RelayContractView, rest: Seq<u8>)
    requires
        v.wf(),
    ensures
        decode_state(v.encode() + rest) == Some(v),
{
    lemma_auto_spec_u32_to_from_le_bytes();
    lemma_auto_spec_u64_to_from_le_bytes();
    let s = v.encode() + rest;
    let ss = v.swap_status.map_values(|e: (Seq<u8>, RequestStatus)| status_entry_bytes(e));
    let rs = v.requests.map_values(|e: (Seq<u8>, WrapRequestView)| request_entry_bytes(e));
    let n1 = v.oracles.len();
    let n2 = v.swap_status.len();
    let n3 = v.requests.len();
    let n4 = v.requests_queue.len();
    assert(all_len(ss, 17)) by {
        assert forall|i: int| 0 <= i < ss.len() implies #[trigger] ss[i].len() == 17 by {
            assert(v.swap_status[i].0.len() == 16);
        }
    }
    assert(all_len(rs, 123)) by {
        assert forall|i: int| 0 <= i < rs.len() implies #[trigger] rs[i].len() == 123 by {
            assert(v.requests[i].0.len() == 16 && v.requests[i].1.wf());
        }
    }
    crate::bytes::lemma_flatten_fixed(v.oracles, 32);
    crate::bytes::lemma_flatten_fixed(ss, 17);
    crate::bytes::lemma_flatten_fixed(rs, 123);
    crate::bytes::lemma_flatten_fixed(v.requests_queue, 16);
    let e0 = v.nebula_address + v.token_address + v.token_mint + v.initializer_pubkey;
    let e1 = e0 + count_bytes(n1);
    let e2 = e1 + flatten(v.oracles);
    let e3 = e2 + count_bytes(n2);
    let e4 = e3 + flatten(ss);
    let e5 = e4 + count_bytes(n3);
    let e6 = e5 + flatten(rs);
    let fl = seq![if v.is_state_initialized { 1u8 } else { 0u8 }];
    let e7 = e6 + fl;
    let e8 = e7 + count_bytes(n4);
    let e9 = e8 + flatten(v.requests_queue);
    assert(e9 == v.encode());
    assert(s.subrange(0, e9.len() as int) =~= e9);
    lemma_split(s, e8, flatten(v.requests_queue));
    lemma_split(s, e7, count_bytes(n4));
    lemma_split(s, e6, fl);
    lemma_split(s, e5, flatten(rs));
    lemma_split(s, e4, count_bytes(n3));
    lemma_split(s, e3, flatten(ss));
    lemma_split(s, e2, count_bytes(n2));
    lemma_split(s, e1, flatten(v.oracles));
    lemma_split(s, e0, count_bytes(n1));
    let ea = v.nebula_address + v.token_address;
    let eb = ea + v.token_mint;
    lemma_split(s, eb, v.initializer_pubkey);
    lemma_split(s, ea, v.token_mint);
    lemma_split(s, v.nebula_address, v.token_address);
    assert(s.subrange(0, 32) =~= v.nebula_address);
    let p1: int = 132 + 32 * n1 as int;
    let p2: int = p1 + 4 + 17 * n2;
    let p3: int = p2 + 4 + 123 * n3;
    lemma_count(s, 128, n1);
    lemma_count(s, p1, n2);
    lemma_count(s, p2, n3);
    lemma_count(s, p3 + 1, n4);
    assert(s.len() >= p3 + 5 + 16 * n4);
    assert(s[p3] == fl[0]) by {
        assert(s.subrange(p3, p3 + 1)[0] == s[p3]);
    }
    let w = state_at(s, n1 as int, n2 as int, n3 as int, n4 as int, p1, p2, p3);
    assert(w.oracles =~= v.oracles) by {
        assert forall|i: int| 0 <= i < n1 implies #[trigger] w.oracles[i] == v.oracles[i] by {
            lemma_piece(s, 132, v.oracles, 32, i);
        }
    }
    assert forall|i: int| 0 <= i < n2 implies status_entry_bytes(v.swap_status[i]) == s.subrange(
        p1 + 4 + 17 * i,
        p1 + 4 + 17 * i + 17,
    ) by {
        lemma_piece(s, p1 + 4, ss, 17, i);
    }
    assert forall|i: int| 0 <= i < n2 implies #[trigger] status_byte_at(s, p1 + 4, i) == status_code(
        v.swap_status[i].1,
    ) && s.subrange(p1 + 4 + 17 * i, p1 + 4 + 17 * i + 16) == v.swap_status[i].0 by {
        let q = p1 + 4 + 17 * i;
        let en = status_entry_bytes(v.swap_status[i]);
        assert(en == s.subrange(q, q + 17));
        assert(s[q + 16] == en[16]);
        assert(s.subrange(q, q + 16) =~= en.subrange(0, 16));
        assert(en.subrange(0, 16) =~= v.swap_status[i].0);
    }
    assert(w.swap_status =~= v.swap_status) by {
        assert forall|i: int| 0 <= i < n2 implies #[trigger] w.swap_status[i] == v.swap_status[i] by {
            assert(status_byte_at(s, p1 + 4, i) == status_code(v.swap_status[i].1));
        }
    }
    assert(w.requests =~= v.requests) by {
        assert forall|i: int| 0 <= i < n3 implies #[trigger] w.requests[i] == v.requests[i] by {
            let q = p2 + 4 + 123 * i;
            lemma_piece(s, p2 + 4, rs, 123, i);
            assert(v.requests[i].0.len() == 16 && v.requests[i].1.wf());
            lemma_request_entry(s, q, v.requests[i]);
        }
    }
    assert(w.requests_queue =~= v.requests_queue) by {
        assert forall|i: int| 0 <= i < n4 implies #[trigger] w.requests_queue[i] == v.requests_queue[i] by {
            lemma_piece(s, p3 + 5, v.requests_queue, 16, i);
        }
    }
    assert(w == v);
}

/// Whether the entry with key `k` has status `st`.
pub open spec fn status_is(s: Seq<(Seq<u8>, RequestStatus)>, k: Seq<u8>, st: RequestStatus) -> bool {
    exists|i: int| 0 <= i < s.len() && #[trigger] s[i].0 == k && s[i].1 == st
}

/// Destination chain tag of requests created here.
pub open spec fn no_chain() -> Seq<u8> {
    seq![0u8, 0u8, 0u8]
}

impl RelayContractView {
    /// The state after recording a new request: the record, its status `New`, and its
    /// identifier at the tail of the queue.
    pub open spec fn with_new_request(
        self,
        id: Seq<u8>,
        amount: u64,
        origin: Seq<u8>,
        receiver: Seq<u8>,
    ) -> RelayContractView {
        RelayContractView {
            requests: self.requests.push(
                (
                    id,
                    WrapRequestView {
                        token_mint: self.token_mint,
                        origin_address: origin,
                        destination_address: receiver,
                        destination_chain: no_chain(),
                        amount,
                    },
                ),
            ),
            swap_status: set_entry(self.swap_status, id, RequestStatus::New),
            requests_queue: self.requests_queue.push(id),
            ..self
        }
    }

    /// Outcome of recording a request: refused at the ceiling, or for an identifier
    /// already recorded.
    pub open spec fn create_request_result(
        self,
        id: Seq<u8>,
        amount: u64,
        origin: Seq<u8>,
        receiver: Seq<u8>,
    ) -> Result<RelayContractView, RelayError> {
        if self.requests.len() >= MAX_IDLE_REQUESTS_COUNT {
            Err(RelayError::TransferRequestsCountLimit)
        } else if has_key(self.requests, id) {
            Err(RelayError::RequestIDIsAlreadyBeingProcessed)
        } else {
            Ok(self.with_new_request(id, amount, origin, receiver))
        }
    }

    /// The state with the status of `id` set to `st`.
    pub open spec fn with_status(self, id: Seq<u8>, st: RequestStatus) -> RelayContractView {
        RelayContractView { swap_status: set_entry(self.swap_status, id, st), ..self }
    }
}

/// Setting an entry keeps keys unique and adds at most one entry.
proof fn lemma_set_entry<V>(s: Seq<(Seq<u8>, V)>, k: Seq<u8>, v: V)
    requires
        keys_unique(s),
    ensures
        keys_unique(set_entry(s, k, v)),
        set_entry(s, k, v).len() <= s.len() + 1,
        forall|i: int|
            0 <= i < set_entry(s, k, v).len() ==> (#[trigger] set_entry(s, k, v)[i]).0 == k || set_entry(
                s,
                k,
                v,
            )[i] == s[i],
{
}

impl RelayContract {
    /// The position of the status entry of `id`, if any.
    pub fn find_status(&self, id: &RequestId) -> (r: Option<usize>)
        ensures
            match r {
                Some(i) => i < self.swap_status@.len() && self@.swap_status[i as int].0 == id@,
                None => !has_key(self@.swap_status, id@),
            },
    {
        let mut i: usize = 0;
        while i < self.swap_status.len()
            invariant
                i <= self.swap_status@.len(),
                forall|j: int| 0 <= j < i ==> self@.swap_status[j].0 != id@,
            decreases self.swap_status@.len() - i,
        {
            if bytes_equal(self.swap_status[i].0.as_slice(), id.as_slice()) {
                return Some(i);
            }
            i = i + 1;
        }
        None
    }

    /// Whether a request with identifier `id` is recorded.
    pub fn contains_request(&self, id: &RequestId) -> (r: bool)
        ensures
            r == has_key(self@.requests, id@),
    {
        let mut i: usize = 0;
        while i < self.requests.len()
            invariant
                i <= self.requests@.len(),
                forall|j: int| 0 <= j < i ==> self@.requests[j].0 != id@,
            decreases self.requests@.len() - i,
        {
            if bytes_equal(self.requests[i].0.as_slice(), id.as_slice()) {
                assert(self@.requests[i as int].0 == id@);
                return true;
            }
            i = i + 1;
        }
        false
    }

    /// Sets the status of `id`, in place where it has one, else as a new entry.
    pub fn set_status(&mut self, id: &RequestId, st: RequestStatus)
        requires
            old(self)@.wf(),
            old(self)@.swap_status.len() < u32::MAX,
        ensures
            final(self)@ == old(self)@.with_status(id@, st),
            final(self)@.wf(),
    {
        let ghost v = self@;
        proof {
            lemma_set_entry(v.swap_status, id@, st);
        }
        match self.find_status(id) {
            Some(i) => {
                proof {
                    let c = choose|j: int| 0 <= j < v.swap_status.len() && #[trigger] v.swap_status[j].0 == id@;
                    assert(v.swap_status[i as int].0 == id@);
                    assert(c == i);
                }
                self.swap_status.set(i, (*id, st));
                assert(self@.swap_status =~= set_entry(v.swap_status, id@, st));
            },
            None => {
                self.swap_status.push((*id, st));
                assert(self@.swap_status =~= set_entry(v.swap_status, id@, st));
            },
        }
        assert(self@ =~= v.with_status(id@, st));
    }

    /// How many requests are recorded.
    pub fn unprocessed_burn_requests(&self) -> (r: usize)
        ensures
            r == self@.requests.len(),
    {
        self.requests.len()
    }

    /// Refuses once the pending-request ceiling is reached.
    pub fn validate_requests_count(&self) -> (r: Result<(), RelayError>)
        ensures
            r is Ok <==> self@.requests.len() < MAX_IDLE_REQUESTS_COUNT,
            r is Err ==> r == Err::<(), RelayError>(RelayError::TransferRequestsCountLimit),
    {
        if self.unprocessed_burn_requests() >= MAX_IDLE_REQUESTS_COUNT {
            return Err(RelayError::TransferRequestsCountLimit);
        }
        Ok(())
    }

    /// Refuses a mint other than the one the contract is bound to.
    pub fn validate_token_mint(&self, mint: &Pubkey) -> (r: Result<(), RelayError>)
        ensures
            r is Ok <==> mint@ == self@.token_mint,
            r is Err ==> r == Err::<(), RelayError>(RelayError::InvalidTokenMint),
    {
        if bytes_equal(mint.as_slice(), self.token_mint.as_slice()) {
            Ok(())
        } else {
            Err(RelayError::InvalidTokenMint)
        }
    }

    /// Records a new request with status `New` and queues its identifier. Refused, with
    /// the state unchanged, at the ceiling or for an identifier already recorded.
    pub fn create_transfer_wrap_request(
        &mut self,
        record_id: &RequestId,
        amount: u64,
        sender_data_account: &Pubkey,
        receiver: &ForeignAddress,
    ) -> (r: Result<(), RelayError>)
        requires
            old(self)@.wf(),
            old(self)@.swap_status.len() < u32::MAX,
            old(self)@.requests_queue.len() < u32::MAX,
        ensures
            match old(self)@.create_request_result(record_id@, amount, sender_data_account@, receiver@) {
                Ok(v) => r is Ok && final(self)@ == v && v.wf(),
                Err(e) => r == Err::<(), RelayError>(e) && final(self)@ == old(self)@,
            },
    {
        self.validate_requests_count()?;
        if self.contains_request(record_id) {
            return Err(RelayError::RequestIDIsAlreadyBeingProcessed);
        }
        let ghost v = self@;
        let w = WrapRequest {
            token_mint: self.token_mint,
            origin_address: *sender_data_account,
            destination_address: *receiver,
            destination_chain: [0u8; 3],
            amount,
        };
        assert(w@.destination_chain =~= no_chain());
        self.requests.push((*record_id, w));
        assert(self@.requests =~= v.requests.push((record_id@, w@)));
        proof {
            let rq = self@.requests;
            assert forall|i: int, j: int| 0 <= i < rq.len() && 0 <= j < rq.len() && i != j implies #[trigger] rq[i].0
                != #[trigger] rq[j].0 by {
                if i == rq.len() - 1 {
                    assert(v.requests[j].0 != record_id@);
                } else if j == rq.len() - 1 {
                    assert(v.requests[i].0 != record_id@);
                }
            }
            assert forall|i: int| 0 <= i < rq.len() implies (#[trigger] rq[i]).0.len() == 16
                && rq[i].1.wf() by {
                if i < rq.len() - 1 {
                    assert(v.requests[i].0.len() == 16 && v.requests[i].1.wf());
                }
            }
        }
        self.set_status(record_id, RequestStatus::New);
        self.requests_queue.push(*record_id);
        assert(self@.requests =~= v.requests.push((record_id@, w@)));
        assert(self@.requests_queue =~= v.requests_queue.push(record_id@));
        assert(self@ =~= v.with_new_request(record_id@, amount, sender_data_account@, receiver@));
        Ok(())
    }
}

/// Recording a request in a state whose pending requests are at the ceiling is refused
/// with the count-limit error, whatever the request.
pub proof fn lemma_create_at_ceiling(
    v: RelayContractView,
    id: Seq<u8>,
    amount: u64,
    origin: Seq<u8>,
    receiver: Seq<u8>,
)
    requires
        v.wf(),
        v.requests.len() >= MAX_IDLE_REQUESTS_COUNT,
    ensures
        v.create_request_result(id, amount, origin, receiver) == Err::<RelayContractView, RelayError>(
            RelayError::TransferRequestsCountLimit,
        ),
{
}

} // verus!
