//! Base64 in its standard alphabet with padding, as the `Authorization`
//! header of HTTP Basic authentication uses it.

use vstd::prelude::*;

verus! {

/// The character that stands for the six-bit value `v`.
pub open spec fn sextet_char(v: int) -> char
    recommends
        0 <= v < 64,
{
    if v < 26 {
        (v + 65) as char
    } else if v < 52 {
        (v + 71) as char
    } else if v < 62 {
        (v - 4) as char
    } else if v == 62 {
        '+'
    } else {
        '/'
    }
}

/// The six-bit value that `c` stands for, if it is of the alphabet.
pub open spec fn sextet_of(c: char) -> Option<int> {
    let u = c as int;
    if 65 <= u <= 90 {
        Some(u - 65)
    } else if 97 <= u <= 122 {
        Some(u - 71)
    } else if 48 <= u <= 57 {
        Some(u + 4)
    } else if u == 43 {
        Some(62)
    } else if u == 47 {
        Some(63)
    } else {
        None
    }
}

/// The Base64 form of `bytes`: four characters for every three bytes, the
/// last group filled up with `=`.
pub open spec fn base64_encode(bytes: Seq<u8>) -> Seq<char>
    decreases bytes.len(),
{
    if bytes.len() == 0 {
        Seq::empty()
    } else if bytes.len() == 1 {
        let a = bytes[0] as int;
        seq![sextet_char(a / 4), sextet_char(a % 4 * 16), '=', '=']
    } else if bytes.len() == 2 {
        let a = bytes[0] as int;
        let b = bytes[1] as int;
        seq![sextet_char(a / 4), sextet_char(a % 4 * 16 + b / 16), sextet_char(b % 16 * 4), '=']
    } else {
        let a = bytes[0] as int;
        let b = bytes[1] as int;
        let c = bytes[2] as int;
        seq![
            sextet_char(a / 4),
            sextet_char(a % 4 * 16 + b / 16),
            sextet_char(b % 16 * 4 + c / 64),
            sextet_char(c % 64),
        ] + base64_encode(bytes.skip(3))
    }
}

/// The bytes that `text` is a Base64 form of, if it is one.
pub open spec fn base64_decode(text: Seq<char>) -> Option<Seq<u8>>
    decreases text.len(),
{
    if text.len() == 0 {
        Some(Seq::empty())
    } else if text.len() < 4 {
        None
    } else {
        match (sextet_of(text[0]), sextet_of(text[1])) {
            (Some(p), Some(q)) => {
                let first = (p * 4 + q / 16) as u8;
                if text.len() == 4 && text[2] == '=' && text[3] == '=' {
                    Some(seq![first])
                } else {
                    match sextet_of(text[2]) {
                        Some(r) => {
                            let second = (q % 16 * 16 + r / 4) as u8;
                            if text.len() == 4 && text[3] == '=' {
                                Some(seq![first, second])
                            } else {
                                match (sextet_of(text[3]), base64_decode(text.skip(4))) {
                                    (Some(s), Some(rest)) => Some(
                                        seq![first, second, (r % 4 * 64 + s) as u8] + rest,
                                    ),
                                    _ => None,
                                }
                            }
                        },
                        None => None,
                    }
                }
            },
            _ => None,
        }
    }
}

/// A character of the alphabet stands for the value it was chosen for, and
/// is never the padding character.
pub proof fn lemma_sextet_round_trip(v: int)
    requires
        0 <= v < 64,
    ensures
        sextet_of(sextet_char(v)) == Some(v),
        sextet_char(v) != '=',
{
}

/// Whether `c` is a character of the alphabet or the padding character.
pub open spec fn is_base64_char(c: char) -> bool {
    sextet_of(c) is Some || c == '='
}

/// The Base64 form of any bytes holds characters of the alphabet and padding
/// only, four for every three bytes begun.
pub proof fn lemma_base64_shape(bytes: Seq<u8>)
    ensures
        base64_encode(bytes).len() == 4 * ((bytes.len() + 2) / 3),
        forall|i: int|
            0 <= i < base64_encode(bytes).len() ==> is_base64_char(
                #[trigger] base64_encode(bytes)[i],
            ),
    decreases bytes.len(),
{
    let text = base64_encode(bytes);
    if bytes.len() == 1 {
        let a = bytes[0] as int;
        lemma_sextet_round_trip(a / 4);
        lemma_sextet_round_trip(a % 4 * 16);
    } else if bytes.len() == 2 {
        let a = bytes[0] as int;
        let b = bytes[1] as int;
        lemma_sextet_round_trip(a / 4);
        lemma_sextet_round_trip(a % 4 * 16 + b / 16);
        lemma_sextet_round_trip(b % 16 * 4);
    } else if bytes.len() >= 3 {
        let a = bytes[0] as int;
        let b = bytes[1] as int;
        let c = bytes[2] as int;
        lemma_sextet_round_trip(a / 4);
        lemma_sextet_round_trip(a % 4 * 16 + b / 16);
        lemma_sextet_round_trip(b % 16 * 4 + c / 64);
        lemma_sextet_round_trip(c % 64);
        lemma_base64_shape(bytes.skip(3));
        let rest = base64_encode(bytes.skip(3));
        assert forall|i: int| 0 <= i < text.len() implies is_base64_char(#[trigger] text[i]) by {
            if i >= 4 {
                assert(text[i] == rest[i - 4]);
            }
        }
    }
}

/// Decoding the Base64 form of any bytes gives the bytes back.
pub proof fn lemma_base64_round_trip(bytes: Seq<u8>)
    ensures
        base64_decode(base64_encode(bytes)) == Some(bytes),
    decreases bytes.len(),
{
    let text = base64_encode(bytes);
    if bytes.len() == 1 {
        let a = bytes[0] as int;
        lemma_sextet_round_trip(a / 4);
        lemma_sextet_round_trip(a % 4 * 16);
        assert(base64_decode(text).unwrap() =~= bytes);
    } else if bytes.len() == 2 {
        let a = bytes[0] as int;
        let b = bytes[1] as int;
        lemma_sextet_round_trip(a / 4);
        lemma_sextet_round_trip(a % 4 * 16 + b / 16);
        lemma_sextet_round_trip(b % 16 * 4);
        assert(base64_decode(text).unwrap() =~= bytes);
    } else if bytes.len() >= 3 {
        let a = bytes[0] as int;
        let b = bytes[1] as int;
        let c = bytes[2] as int;
        lemma_sextet_round_trip(a / 4);
        lemma_sextet_round_trip(a % 4 * 16 + b / 16);
        lemma_sextet_round_trip(b % 16 * 4 + c / 64);
        lemma_sextet_round_trip(c % 64);
        lemma_base64_round_trip(bytes.skip(3));
        assert(text.skip(4) =~= base64_encode(bytes.skip(3)));
        assert(base64_decode(text).unwrap() =~= bytes);
    }
}

/// Runs `bytes` through `base64::write::EncoderWriter` with the configuration
/// `base64::STANDARD` and returns what the encoder wrote. The contract claims
/// that this is the Base64 form of RFC 4648 in the standard alphabet, with
/// padding and without line breaks.
#[verifier::external_body]
pub(crate) fn base64_standard(bytes: &[u8]) -> (text: String)
    ensures
        text@ == base64_encode(bytes@),
{
    let mut buffer: Vec<u8> = Vec::new();
    {
        let mut encoder = base64::write::EncoderWriter::new(&mut buffer, base64::STANDARD);
        std::io::Write::write_all(&mut encoder, bytes).expect("could not write to b64 encoder");
    }
    String::from_utf8(buffer).expect("invalid utf8")
}

} // verus!
