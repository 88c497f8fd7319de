//! Verifying keys: canonical bytes and the bech32m text form.
use crate::bytes::{lemma_le_round_trip, push_all, push_u64_le, read_bytes, read_u64_le};
use crate::circuit_info::{circuit_info_at, circuit_info_bytes, lemma_circuit_info_round_trip, CircuitInfo};
use crate::codec::{all_width, concat, elems_view, lemma_elements_round_trip, parse_elements, read_elements};
use vstd::bytes::{spec_u64_from_le_bytes, spec_u64_to_le_bytes};
use crate::bech32m::{
    all_u5, base32_of, bech32_decoded, bech32m_text, bytes_of_base32, decode_bech32, encode_bech32m,
    from_base32, hrp_is_valid_lower, to_base32,
};
use vstd::prelude::*;
use vstd::string::*;

verus! {

/// The bytes of a commitment to an index polynomial.
pub const COMMITMENT_SIZE: usize = 48;

/// The bytes of a circuit ID.
pub const CIRCUIT_ID_SIZE: usize = 32;

/// The commitments of a verifying key: four index polynomials (row, column,
/// row-column product and value) for each of the matrices A, B and C.
pub const NUM_CIRCUIT_COMMITMENTS: usize = 12;

/// The bytes of a well-formed verifying key.
pub const VERIFYING_KEY_SIZE: usize = 664;

/// A circuit's verifying key: the circuit's shape, the commitments to its
/// index polynomials, and the circuit's ID.
#[derive(Clone, Debug)]
pub struct VerifyingKey {
    pub circuit_info: CircuitInfo,
    /// The commitments, `COMMITMENT_SIZE` bytes each.
    pub circuit_commitments: Vec<Vec<u8>>,
    /// The circuit ID, `CIRCUIT_ID_SIZE` bytes.
    pub id: Vec<u8>,
}

/// Why a verifying key could not be read.
#[derive(Clone, Copy, Debug, PartialEq, Eq, Structural)]
pub enum VkError {
    /// The bytes do not hold a verifying key.
    Malformed,
    /// The text is not bech32 at all.
    InvalidBech32,
    /// The human-readable prefix is not `verifier`.
    WrongPrefix,
    /// The data part is empty.
    EmptyData,
    /// The text is bech32, not bech32m.
    NotBech32m,
    /// The data part does not regroup into whole bytes.
    InvalidPadding,
    /// The text does not start with a verifying key.
    NotRecognized,
}

pub type VkView = (CircuitInfo, Seq<Seq<u8>>, Seq<u8>);

impl View for VerifyingKey {
    type V = VkView;

    open spec fn view(&self) -> VkView {
        (self.circuit_info, elems_view(self.circuit_commitments@), self.id@)
    }
}

/// The key has its twelve commitments, and commitments and ID have their
/// sizes.
pub open spec fn vk_well_formed(v: VkView) -> bool {
    &&& v.1.len() == NUM_CIRCUIT_COMMITMENTS
    &&& all_width(v.1, COMMITMENT_SIZE as nat)
    &&& v.2.len() == CIRCUIT_ID_SIZE
    &&& v.1.len() <= u64::MAX
}

/// The canonical bytes: the shape, the number of commitments as a
/// little-endian `u64`, the commitments, then the ID.
pub open spec fn vk_bytes(v: VkView) -> Seq<u8> {
    circuit_info_bytes(v.0) + spec_u64_to_le_bytes(v.1.len() as u64) + concat(v.1) + v.2
}

pub open spec fn u64_at(bytes: Seq<u8>, pos: int) -> Option<u64> {
    if 0 <= pos && pos + 8 <= bytes.len() {
        Some(spec_u64_from_le_bytes(bytes.subrange(pos, pos + 8)))
    } else {
        None
    }
}

/// The verifying key encoded from `pos` on, and the position after it.
pub open spec fn parse_vk(bytes: Seq<u8>, pos: int) -> Option<(VkView, int)> {
    match circuit_info_at(bytes, pos) {
        None => None,
        Some(info) => match u64_at(bytes, pos + 48) {
            None => None,
            Some(n) => match parse_elements(bytes, pos + 56, n as nat, COMMITMENT_SIZE as nat) {
                None => None,
                Some((cs, p)) => if p + CIRCUIT_ID_SIZE <= bytes.len() {
                    Some(((info, cs, bytes.subrange(p, p + CIRCUIT_ID_SIZE)), p + CIRCUIT_ID_SIZE))
                } else {
                    None
                },
            },
        },
    }
}

impl VerifyingKey {
    /// The canonical bytes of the key.
    pub fn to_bytes_le(&self) -> (r: Vec<u8>)
        ensures
            r@ == vk_bytes(self@),
    {
        let mut out = self.circuit_info.write_le();
        push_u64_le(&mut out, self.circuit_commitments.len() as u64);
        let ghost head = out@;
        let mut i: usize = 0;
        while i < self.circuit_commitments.len()
            invariant
                0 <= i <= self.circuit_commitments@.len(),
                out@ == head + concat(self@.1.subrange(0, i as int)),
            decreases self.circuit_commitments@.len() - i,
        {
            push_all(&mut out, self.circuit_commitments[i].as_slice());
            assert(self@.1.subrange(0, i + 1).drop_last() =~= self@.1.subrange(0, i as int));
            i = i + 1;
            assert(out@ =~= head + concat(self@.1.subrange(0, i as int)));
        }
        assert(self@.1.subrange(0, self@.1.len() as int) =~= self@.1);
        push_all(&mut out, self.id.as_slice());
        assert(out@ =~= vk_bytes(self@));
        out
    }

    /// Reads a verifying key from the start of `bytes`; bytes after it are
    /// left alone.
    pub fn read_le(bytes: &[u8]) -> (r: Result<VerifyingKey, VkError>)
        ensures
            match parse_vk(bytes@, 0) {
                None => r == Err::<VerifyingKey, VkError>(VkError::Malformed),
                Some((v, _)) => r is Ok && r->Ok_0@ == v,
            },
    {
        let info = match CircuitInfo::read_le_at(bytes, 0) {
            Some(i) => i,
            None => {
                return Err(VkError::Malformed);
            },
        };
        let n = match read_u64_le(bytes, 48) {
            Some(n) => n,
            None => {
                return Err(VkError::Malformed);
            },
        };
        let (cs, p) = match read_elements(bytes, 56, n, COMMITMENT_SIZE) {
            Some(x) => x,
            None => {
                return Err(VkError::Malformed);
            },
        };
        let id = match read_bytes(bytes, p, CIRCUIT_ID_SIZE) {
            Some(id) => id,
            None => {
                return Err(VkError::Malformed);
            },
        };
        Ok(VerifyingKey { circuit_info: info, circuit_commitments: cs, id })
    }
}

/// A well-formed key's canonical bytes read back as the key, whatever
/// follows them.
pub proof fn lemma_vk_bytes_round_trip(v: VkView, suffix: Seq<u8>)
    requires
        vk_well_formed(v),
    ensures
        parse_vk(vk_bytes(v) + suffix, 0) == Some((v, vk_bytes(v).len() as int)),
{
    lemma_le_round_trip();
    let b = vk_bytes(v) + suffix;
    let info = circuit_info_bytes(v.0);
    let rest = spec_u64_to_le_bytes(v.1.len() as u64) + concat(v.1) + v.2 + suffix;
    lemma_circuit_info_round_trip(v.0, seq![], rest);
    assert(seq![] + info + rest =~= b);
    assert(b.subrange(48, 56) =~= spec_u64_to_le_bytes(v.1.len() as u64));
    assert(u64_at(b, 48) == Some(v.1.len() as u64));
    lemma_elements_round_trip(v.1, COMMITMENT_SIZE as nat, b.subrange(0, 56), v.2 + suffix);
    assert(b.subrange(0, 56) + concat(v.1) + (v.2 + suffix) =~= b);
    let p = (56 + concat(v.1).len()) as int;
    assert(b.subrange(p, p + 32) =~= v.2);
}

/// Every well-formed key has canonical bytes of one fixed length, whatever
/// its circuit's shape: two well-formed keys encode to as many bytes.
pub proof fn lemma_vk_bytes_len(v: VkView, w: VkView)
    requires
        vk_well_formed(v),
        vk_well_formed(w),
    ensures
        vk_bytes(v).len() == VERIFYING_KEY_SIZE,
        vk_bytes(v).len() == vk_bytes(w).len(),
{
    lemma_vk_bytes_len_one(v);
    lemma_vk_bytes_len_one(w);
}

proof fn lemma_vk_bytes_len_one(v: VkView)
    requires
        vk_well_formed(v),
    ensures
        vk_bytes(v).len() == VERIFYING_KEY_SIZE,
{
    lemma_le_round_trip();
    lemma_elements_round_trip(v.1, COMMITMENT_SIZE as nat, seq![], seq![]);
    crate::circuit_info::lemma_circuit_info_round_trip(v.0, seq![], seq![]);
}

/// The human-readable prefix of a verifying key's text: `verifier`.
pub open spec fn vk_prefix() -> Seq<char> {
    seq!['v', 'e', 'r', 'i', 'f', 'i', 'e', 'r']
}

/// The 5-bit groups of a text form are usable: there is at least one, and
/// each is below 32.
pub open spec fn groups_ok(g: Seq<u8>) -> bool {
    g.len() > 0 && all_u5(g)
}

/// The text form of a key: its canonical bytes in bech32m under `verifier`.
pub open spec fn vk_text(v: VkView) -> Seq<char> {
    bech32m_text(vk_prefix(), base32_of(vk_bytes(v)))
}

/// The key in a text form, or why there is none.
pub open spec fn vk_from_text(s: Seq<char>) -> Result<VkView, VkError> {
    match bech32_decoded(s) {
        None => Err(VkError::InvalidBech32),
        Some((hrp, data, is_bech32m)) => if hrp != vk_prefix() {
            Err(VkError::WrongPrefix)
        } else if data.len() == 0 {
            Err(VkError::EmptyData)
        } else if !is_bech32m {
            Err(VkError::NotBech32m)
        } else {
            match bytes_of_base32(data) {
                None => Err(VkError::InvalidPadding),
                Some(bytes) => match parse_vk(bytes, 0) {
                    None => Err(VkError::Malformed),
                    Some((v, _)) => Ok(v),
                },
            }
        },
    }
}

proof fn lemma_prefix_is_valid()
    ensures
        hrp_is_valid_lower(vk_prefix()),
{
    assert forall|i: int| 0 <= i < vk_prefix().len() implies 33 <= (#[trigger] vk_prefix()[i]) as u32
        <= 126 && !(65 <= vk_prefix()[i] as u32 <= 90) by {
        let p = vk_prefix();
        assert(p[0] == 'v' && p[1] == 'e' && p[2] == 'r' && p[3] == 'i');
        assert(p[4] == 'f' && p[5] == 'i' && p[6] == 'e' && p[7] == 'r');
    }
}

fn prefix_string() -> (r: String)
    ensures
        r@ == vk_prefix(),
{
    let r = "verifier".to_owned();
    proof {
        reveal_strlit("verifier");
    }
    assert(r@ =~= vk_prefix());
    r
}

/// A character of the bech32 data alphabet.
pub open spec fn is_data_char(c: char) -> bool {
    c == 'q' || c == 'p' || c == 'z' || c == 'r' || c == 'y' || c == '9' || c == 'x' || c == '8'
        || c == 'g' || c == 'f' || c == '2' || c == 't' || c == 'v' || c == 'd' || c == 'w' || c
        == '0' || c == 's' || c == '3' || c == 'j' || c == 'n' || c == '5' || c == '4' || c == 'k'
        || c == 'h' || c == 'c' || c == 'e' || c == '6' || c == 'm' || c == 'u' || c == 'a' || c
        == '7' || c == 'l'
}

fn data_char(c: char) -> (r: bool)
    ensures
        r == is_data_char(c),
{
    c == 'q' || c == 'p' || c == 'z' || c == 'r' || c == 'y' || c == '9' || c == 'x' || c == '8'
        || c == 'g' || c == 'f' || c == '2' || c == 't' || c == 'v' || c == 'd' || c == 'w' || c
        == '0' || c == 's' || c == '3' || c == 'j' || c == 'n' || c == '5' || c == '4' || c == 'k'
        || c == 'h' || c == 'c' || c == 'e' || c == '6' || c == 'm' || c == 'u' || c == 'a' || c
        == '7' || c == 'l'
}

/// The end of the run of data characters and underscores that starts at `i`.
pub open spec fn run_end(s: Seq<char>, i: int) -> int
    decreases s.len() - i,
{
    if 0 <= i < s.len() && (is_data_char(s[i]) || s[i] == '_') {
        run_end(s, i + 1)
    } else {
        i
    }
}

/// The characters without the underscores.
pub open spec fn strip_underscores(s: Seq<char>) -> Seq<char>
    decreases s.len(),
{
    if s.len() == 0 {
        seq![]
    } else if s.last() == '_' {
        strip_underscores(s.drop_last())
    } else {
        strip_underscores(s.drop_last()).push(s.last())
    }
}

/// `verifier1`: the prefix and the bech32 separator.
pub open spec fn key_start() -> Seq<char> {
    vk_prefix().push('1')
}

/// A key at the start of `s`, written `verifier1` and then data characters,
/// each followed by any number of underscores: the rest of `s` and the key,
/// or why there is none.
pub open spec fn parse_spec(s: Seq<char>) -> Result<(Seq<char>, VkView), VkError> {
    if s.len() > 9 && s.subrange(0, 9) == key_start() && is_data_char(s[9]) {
        let e = run_end(s, 9);
        match vk_from_text(key_start() + strip_underscores(s.subrange(9, e))) {
            Ok(v) => Ok((s.subrange(e, s.len() as int), v)),
            Err(err) => Err(err),
        }
    } else {
        Err(VkError::NotRecognized)
    }
}

impl VerifyingKey {
    /// Reads a key at the start of `s`, where underscores may follow any
    /// data character; returns the rest of `s` and the key.
    pub fn parse(s: &str) -> (r: Result<(String, VerifyingKey), VkError>)
        ensures
            match parse_spec(s@) {
                Ok((rest, v)) => r matches Ok((t, k)) && t@ == rest && k@ == v,
                Err(e) => r matches Err(x) && x == e,
            },
    {
        let n = s.unicode_len();
        let mut key = "verifier1".to_owned();
        proof {
            reveal_strlit("verifier1");
            assert(key@ =~= key_start());
        }
        if n <= 9 {
            return Err(VkError::NotRecognized);
        }
        let mut i: usize = 0;
        while i < 9
            invariant
                0 <= i <= 9,
                n == s@.len(),
                n > 9,
                key@ == key_start(),
                s@.subrange(0, i as int) == key@.subrange(0, i as int),
            decreases 9 - i,
        {
            if s.get_char(i) != key.get_char(i) {
                assert(s@.subrange(0, 9)[i as int] != key_start()[i as int]);
                return Err(VkError::NotRecognized);
            }
            assert(s@.subrange(0, i + 1) =~= key@.subrange(0, i + 1));
            i = i + 1;
        }
        assert(key@.subrange(0, 9) =~= key@);
        if !data_char(s.get_char(9)) {
            return Err(VkError::NotRecognized);
        }
        let mut i: usize = 9;
        while i < n && (data_char(s.get_char(i)) || s.get_char(i) == '_')
            invariant
                9 <= i <= n,
                n == s@.len(),
                run_end(s@, 9) == run_end(s@, i as int),
                key@ == key_start() + strip_underscores(s@.subrange(9, i as int)),
            decreases n - i,
        {
            let c = s.get_char(i);
            assert(s@.subrange(9, i + 1).drop_last() =~= s@.subrange(9, i as int));
            if c != '_' {
                let one = s.substring_char(i, i + 1);
                key.append(one);
                assert(one@ =~= seq![c]);
            }
            i = i + 1;
            assert(key@ =~= key_start() + strip_underscores(s@.subrange(9, i as int)));
        }
        let rest = s.substring_char(i, n);
        match VerifyingKey::from_bech32m(key.as_str()) {
            Ok(v) => Ok((rest.to_owned(), v)),
            Err(e) => Err(e),
        }
    }

    /// The text form: the canonical bytes in bech32m under the prefix
    /// `verifier`.
    pub fn to_bech32m(&self) -> (r: String)
        ensures
            r@ == vk_text(self@),
            groups_ok(base32_of(vk_bytes(self@))),
    {
        let bytes = self.to_bytes_le();
        let groups = to_base32(&bytes);
        let hrp = prefix_string();
        proof {
            lemma_prefix_is_valid();
            lemma_le_round_trip();
            assert(vk_bytes(self@).len() >= 48);
        }
        match encode_bech32m(hrp.as_str(), &groups) {
            Ok(s) => s,
            Err(_) => {
                // `verifier` is a valid human-readable part, so encoding succeeds.
                assert(false);
                String::new()
            },
        }
    }

    /// Reads a key from its text form. It rejects a text that is not
    /// bech32, a prefix other than `verifier`, an empty data part, the
    /// bech32 (not bech32m) checksum, bad padding, and bytes that do not hold
    /// a key. It reads back every well-formed key from its text form.
    pub fn from_bech32m(s: &str) -> (r: Result<VerifyingKey, VkError>)
        ensures
            match vk_from_text(s@) {
                Ok(v) => r is Ok && r->Ok_0@ == v,
                Err(e) => r == Err::<VerifyingKey, VkError>(e),
            },
            forall|v: VkView|
                vk_well_formed(v) && groups_ok(base32_of(vk_bytes(v))) && s@ == #[trigger] vk_text(v)
                    ==> r is Ok && r->Ok_0@ == v,
    {
        proof {
            lemma_prefix_is_valid();
        }
        let decoded = decode_bech32(s);
        proof {
            assert forall|v: VkView|
                vk_well_formed(v) && groups_ok(base32_of(vk_bytes(v))) && s@ == #[trigger] vk_text(v)
                    implies decoded matches Ok((h, d, m)) && h@ == vk_prefix() && d@ == base32_of(
                    vk_bytes(v),
                ) && m by {
                let x = (vk_prefix(), base32_of(vk_bytes(v)));
                assert(hrp_is_valid_lower(x.0) && all_u5(x.1) && s@ == bech32m_text(x.0, x.1));
            }
        }
        let (hrp, data, is_bech32m) = match decoded {
            Ok(x) => x,
            Err(_) => {
                return Err(VkError::InvalidBech32);
            },
        };
        let prefix = prefix_string();
        if hrp != prefix {
            return Err(VkError::WrongPrefix);
        }
        if data.len() == 0 {
            return Err(VkError::EmptyData);
        }
        if !is_bech32m {
            return Err(VkError::NotBech32m);
        }
        let bytes = match from_base32(&data) {
            Ok(b) => b,
            Err(_) => {
                return Err(VkError::InvalidPadding);
            },
        };
        let r = VerifyingKey::read_le(bytes.as_slice());
        proof {
            assert forall|v: VkView|
                vk_well_formed(v) && groups_ok(base32_of(vk_bytes(v))) && s@ == #[trigger] vk_text(v)
                    implies r is Ok && r->Ok_0@ == v by {
                lemma_vk_bytes_round_trip(v, seq![]);
                assert(vk_bytes(v) + seq![] =~= vk_bytes(v));
                assert(bytes@ == vk_bytes(v));
            }
        }
        r
    }
}

impl std::str::FromStr for VerifyingKey {
    type Err = VkError;

    /// Reads a key from its bech32m text form.
    fn from_str(s: &str) -> (r: Result<VerifyingKey, VkError>)
        ensures
            match vk_from_text(s@) {
                Ok(v) => r is Ok && r->Ok_0@ == v,
                Err(e) => r == Err::<VerifyingKey, VkError>(e),
            },
            forall|v: VkView|
                vk_well_formed(v) && groups_ok(base32_of(vk_bytes(v))) && s@ == #[trigger] vk_text(v)
                    ==> r is Ok && r->Ok_0@ == v,
    {
        VerifyingKey::from_bech32m(s)
    }
}

} // verus!
