//! The bech32 and bech32m text encodings, through the `bech32` crate. Data
//! parts are carried as bytes that each hold one 5-bit group.
use vstd::prelude::*;
use bech32::{CheckBase32, FromBase32, ToBase32};

verus! {

#[verifier::external_type_specification]
#[verifier::external_body]
pub struct ExBech32Error(bech32::Error);

/// The text that `bech32::encode` gives for a human-readable part and 5-bit
/// groups in the bech32m variant.
pub uninterp spec fn bech32m_text(hrp: Seq<char>, data: Seq<u8>) -> Seq<char>;

/// What `bech32::decode` finds in a text: the lower-case human-readable part,
/// the 5-bit groups without the checksum, and whether the checksum is the
/// bech32m one; `None` when the text is not bech32.
pub uninterp spec fn bech32_decoded(s: Seq<char>) -> Option<(Seq<char>, Seq<u8>, bool)>;

/// The 5-bit groups that `ToBase32::to_base32` makes of bytes.
pub uninterp spec fn base32_of(bytes: Seq<u8>) -> Seq<u8>;

/// The bytes that `FromBase32::from_base32` makes of 5-bit groups, `None`
/// when the padding is not zero.
pub uninterp spec fn bytes_of_base32(groups: Seq<u8>) -> Option<Seq<u8>>;

/// Every value is a 5-bit group.
pub open spec fn all_u5(data: Seq<u8>) -> bool {
    forall|i: int| 0 <= i < data.len() ==> #[trigger] data[i] < 32
}

/// A human-readable part that `bech32` accepts and keeps as it is: 1 to 83
/// printable ASCII characters, none of them upper case.
pub open spec fn hrp_is_valid_lower(hrp: Seq<char>) -> bool {
    &&& 1 <= hrp.len() <= 83
    &&& forall|i: int|
        0 <= i < hrp.len() ==> 33 <= (#[trigger] hrp[i]) as u32 <= 126 && !(65 <= hrp[i] as u32
            <= 90)
}

/// Relies on `bech32::encode` with `Variant::Bech32m`: it fails only on a
/// human-readable part that `check_hrp` refuses, and its text depends on its
/// arguments alone.
#[verifier::external_body]
pub(crate) fn encode_bech32m(hrp: &str, data: &Vec<u8>) -> (r: Result<String, bech32::Error>)
    requires
        all_u5(data@),
    ensures
        hrp_is_valid_lower(hrp@) ==> r is Ok,
        r matches Ok(s) ==> s@ == bech32m_text(hrp@, data@),
{
    let groups = data.check_base32()?;
    bech32::encode(hrp, groups, bech32::Variant::Bech32m)
}

/// Relies on `bech32::decode`: its result depends on the text alone, its
/// groups are 5-bit values, and it reads back what `bech32::encode` wrote for
/// a lower-case human-readable part.
#[verifier::external_body]
pub(crate) fn decode_bech32(s: &str) -> (r: Result<(String, Vec<u8>, bool), bech32::Error>)
    ensures
        r matches Ok((h, d, m)) ==> bech32_decoded(s@) == Some((h@, d@, m)) && all_u5(d@),
        r is Err ==> bech32_decoded(s@) is None,
        r is Ok || forall|x: (Seq<char>, Seq<u8>)|
            !(hrp_is_valid_lower(x.0) && all_u5(x.1) && s@ == #[trigger] bech32m_text(x.0, x.1)),
        r matches Ok((h, d, m)) ==> forall|x: (Seq<char>, Seq<u8>)|
            hrp_is_valid_lower(x.0) && all_u5(x.1) && s@ == #[trigger] bech32m_text(x.0, x.1) ==> h@
                == x.0 && d@ == x.1 && m,
{
    let (hrp, data, variant) = bech32::decode(s)?;
    let groups: Vec<u8> = data.into_iter().map(u8::from).collect();
    let is_bech32m = match variant {
        bech32::Variant::Bech32 => false,
        bech32::Variant::Bech32m => true,
    };
    Ok((hrp, groups, is_bech32m))
}

/// Relies on `ToBase32::to_base32` for bytes: 5-bit groups, as many as
/// `Base32Len::base32_len` gives, depending on the bytes alone.
#[verifier::external_body]
pub(crate) fn to_base32(bytes: &Vec<u8>) -> (r: Vec<u8>)
    ensures
        r@ == base32_of(bytes@),
        all_u5(r@),
        r@.len() == (8 * bytes@.len() + 4) / 5,
{
    bytes.to_base32().into_iter().map(u8::from).collect()
}

/// Relies on `FromBase32::from_base32` for bytes: its result depends on the
/// groups alone, and it is the reciprocal of `ToBase32::to_base32`.
#[verifier::external_body]
pub(crate) fn from_base32(groups: &Vec<u8>) -> (r: Result<Vec<u8>, bech32::Error>)
    requires
        all_u5(groups@),
    ensures
        r matches Ok(b) ==> bytes_of_base32(groups@) == Some(b@),
        r is Err ==> bytes_of_base32(groups@) is None,
        r is Ok || forall|b: Seq<u8>| groups@ != #[trigger] base32_of(b),
        r matches Ok(v) ==> forall|b: Seq<u8>| groups@ == #[trigger] base32_of(b) ==> v@ == b,
{
    let groups = groups.check_base32()?;
    Vec::<u8>::from_base32(&groups)
}

} // verus!
