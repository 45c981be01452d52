//! Client identifiers: random UUIDs, and the check of those that a user gives.
use crate::error::{outcome, Error};
use crate::text::chars_of;
use vstd::prelude::*;

verus! {

/// Whether a dash stands at this place of a UUID.
pub open spec fn dash_place(i: int) -> bool {
    i == 8 || i == 13 || i == 18 || i == 23
}

pub open spec fn hex_digit(c: char) -> bool {
    ('0' <= c && c <= '9') || ('a' <= c && c <= 'f') || ('A' <= c && c <= 'F')
}

/// Thirty-six characters: dashes at their places, and hexadecimal digits of
/// either case everywhere else.
pub open spec fn uuid_like(s: Seq<char>) -> bool {
    &&& s.len() == 36
    &&& forall|i: int|
        0 <= i < s.len() ==> if dash_place(i) {
            #[trigger] s[i] == '-'
        } else {
            hex_digit(s[i])
        }
}

pub fn is_uuid_like(value: &str) -> (r: bool)
    ensures
        r == uuid_like(value@),
{
    let v = chars_of(value);
    if v.len() != 36 {
        return false;
    }
    let mut i: usize = 0;
    while i < v.len()
        invariant
            v@ == value@,
            v@.len() == 36,
            i <= 36,
            forall|k: int|
                0 <= k < i ==> if dash_place(k) {
                    #[trigger] value@[k] == '-'
                } else {
                    hex_digit(value@[k])
                },
        decreases v@.len() - i,
    {
        let c = v[i];
        let fits = if i == 8 || i == 13 || i == 18 || i == 23 {
            c == '-'
        } else {
            ('0' <= c && c <= '9') || ('a' <= c && c <= 'f') || ('A' <= c && c <= 'F')
        };
        if !fits {
            assert(value@[i as int] == c);
            return false;
        }
        i += 1;
    }
    true
}

/// A client identifier is accepted exactly when it reads as a UUID, and is then
/// kept as it is.
pub open spec fn checked_client_id(value: Seq<char>) -> Result<Seq<char>, Seq<char>> {
    if uuid_like(value) {
        Ok(value)
    } else {
        Err("client ID must be a UUID: "@ + value)
    }
}

pub fn validate_client_id(value: String) -> (r: Result<String, Error>)
    ensures
        outcome(r) == checked_client_id(value@),
{
    if is_uuid_like(value.as_str()) {
        Ok(value)
    } else {
        Err(Error::about("client ID must be a UUID: ", value.as_str()))
    }
}

/// The lowercase hexadecimal digit of a number below sixteen.
pub open spec fn hex_of(n: u8) -> char {
    if n < 10 {
        (48 + n) as char
    } else {
        (87 + n) as char
    }
}

fn hex(n: u8) -> (r: char)
    requires
        n < 16,
    ensures
        r == hex_of(n),
        hex_digit(r),
{
    if n < 10 {
        (48 + n) as char
    } else {
        (87 + n) as char
    }
}

/// The bytes in lowercase hexadecimal, in groups of four, two, two, two and six
/// bytes with a dash between groups.
pub open spec fn uuid_text(b: Seq<u8>) -> Seq<char> {
    Seq::new(
        36,
        |i: int|
            if dash_place(i) {
                '-'
            } else {
                let k = digit_index(i);
                if k % 2 == 0 {
                    hex_of(b[k / 2] / 16)
                } else {
                    hex_of(b[k / 2] % 16)
                }
            },
    )
}

/// Which of the thirty-two digits stands at this place.
pub open spec fn digit_index(i: int) -> int {
    if i < 8 {
        i
    } else if i < 13 {
        i - 1
    } else if i < 18 {
        i - 2
    } else if i < 23 {
        i - 3
    } else {
        i - 4
    }
}

pub fn format_uuid(bytes: [u8; 16]) -> (r: String)
    ensures
        r@ == uuid_text(bytes@),
        uuid_like(r@),
{
    let mut text = String::new();
    let mut i: usize = 0;
    while i < 16
        invariant
            i <= 16,
            text@.len() == 2 * i + (if i > 4 {
                1int
            } else {
                0
            }) + (if i > 6 {
                1int
            } else {
                0
            }) + (if i > 8 {
                1int
            } else {
                0
            }) + (if i > 10 {
                1int
            } else {
                0
            }),
            forall|k: int|
                0 <= k < text@.len() ==> #[trigger] text@[k] == uuid_text(bytes@)[k],
            forall|k: int|
                0 <= k < text@.len() ==> if dash_place(k) {
                    #[trigger] text@[k] == '-'
                } else {
                    hex_digit(text@[k])
                },
        decreases 16 - i,
    {
        if i == 4 || i == 6 || i == 8 || i == 10 {
            text.push('-');
        }
        text.push(hex(bytes[i] / 16));
        text.push(hex(bytes[i] % 16));
        i += 1;
    }
    proof {
        assert(text@ =~= uuid_text(bytes@));
    }
    text
}

/// Random bytes marked as a UUID of version four in the usual variant.
pub open spec fn marked(b: Seq<u8>) -> Seq<u8> {
    b.update(6, (b[6] & 0x0f) | 0x40).update(8, (b[8] & 0x3f) | 0x80)
}

/// The identifier made of random bytes; without them there is none.
pub open spec fn generated_client_id(random: Option<[u8; 16]>) -> Result<Seq<char>, Seq<char>> {
    match random {
        Some(bytes) => Ok(uuid_text(marked(bytes@))),
        None => Err("generating client UUID"@),
    }
}

pub fn client_id_from(random: Option<[u8; 16]>) -> (r: Result<String, Error>)
    ensures
        outcome(r) == generated_client_id(random),
        random matches Some(bytes) ==> version_four(outcome(r)->Ok_0),
{
    match random {
        Some(random) => {
            let mut bytes = random;
            bytes[6] = (bytes[6] & 0x0f) | 0x40;
            bytes[8] = (bytes[8] & 0x3f) | 0x80;
            proof {
                assert(bytes@ =~= marked(random@));
                generated_ids_are_version_four(random);
            }
            Ok(format_uuid(bytes))
        },
        None => Err(Error::fixed("generating client UUID")),
    }
}

/// Reads as a UUID, in version four and the usual variant.
pub open spec fn version_four(s: Seq<char>) -> bool {
    &&& uuid_like(s)
    &&& s[14] == '4'
    &&& s[19] == '8' || s[19] == '9' || s[19] == 'a' || s[19] == 'b'
}

/// Every identifier that random bytes give passes the check of client
/// identifiers unchanged, and is a UUID of version four.
pub proof fn generated_ids_are_version_four(random: [u8; 16])
    ensures
        generated_client_id(Some(random)) matches Ok(id) && version_four(id) && checked_client_id(
            id,
        ) == Ok::<Seq<char>, Seq<char>>(id),
{
    let b = marked(random@);
    let id = uuid_text(b);
    let six = random@[6];
    let eight = random@[8];
    assert(((six & 0x0f) | 0x40) / 16 == 4) by (bit_vector);
    assert(8 <= ((eight & 0x3f) | 0x80) / 16 && ((eight & 0x3f) | 0x80) / 16 < 12) by (bit_vector);
    assert forall|i: int| 0 <= i < id.len() implies if dash_place(i) {
        #[trigger] id[i] == '-'
    } else {
        hex_digit(id[i])
    } by {
        let k = digit_index(i);
        assert(b[k / 2] / 16 < 16);
        assert(b[k / 2] % 16 < 16);
    }
    assert(id[14] == hex_of(b[6] / 16));
    assert(id[19] == hex_of(b[8] / 16));
}

/// Sixteen bytes from the operating system's source of randomness, read by
/// `getrandom::fill`, which either fills the whole buffer or fails. Nothing is
/// claimed of which bytes come, or of whether they come.
#[verifier::external_body]
pub(crate) fn random_bytes() -> (r: Option<[u8; 16]>) {
    let mut bytes = [0u8; 16];
    getrandom::fill(&mut bytes).ok().map(|_| bytes)
}

/// A fresh client identifier. It is refused only when no randomness can be had.
pub fn generate_client_id() -> (r: Result<String, Error>)
    ensures
        r matches Ok(id) ==> version_four(id@),
        r matches Err(e) ==> e@ == "generating client UUID"@,
{
    client_id_from(random_bytes())
}

} // verus!
