//! Bytes written out in hexadecimal, and read back.

use vstd::prelude::*;
use vstd::utf8::*;

use crate::numbers;
use crate::text::{from_chars, joined_text, owned, to_chars};

verus! {

/// The two hexadecimal digits of a byte, in lower case.
pub open spec fn hex_of_byte(b: u8) -> Seq<char> {
    seq![numbers::digit_char((b / 16) as nat), numbers::digit_char((b % 16) as nat)]
}

/// Bytes in hexadecimal, two digits each.
pub open spec fn hex_of(bytes: Seq<u8>) -> Seq<char>
    decreases bytes.len(),
{
    if bytes.len() == 0 {
        Seq::empty()
    } else {
        hex_of(bytes.drop_last()) + hex_of_byte(bytes.last())
    }
}

/// The byte that two hexadecimal digits stand for; nothing if one of the two
/// characters is no such digit.
pub open spec fn byte_of_pair(high: char, low: char) -> Option<u8> {
    match (numbers::digit_value(high), numbers::digit_value(low)) {
        (Some(h), Some(l)) => Some((h * 16 + l) as u8),
        _ => None,
    }
}

/// The bytes that pairs of hexadecimal digits stand for; nothing if the length
/// is odd or some character is no such digit.
pub open spec fn bytes_of(s: Seq<char>) -> Option<Seq<u8>>
    decreases s.len(),
{
    if s.len() == 0 {
        Some(Seq::empty())
    } else if s.len() == 1 {
        None
    } else {
        match (bytes_of(s.take(s.len() - 2)), byte_of_pair(s[s.len() - 2], s.last())) {
            (Some(before), Some(b)) => Some(before.push(b)),
            _ => None,
        }
    }
}

/// Writes bytes in hexadecimal.
pub fn to_hex(bytes: &Vec<u8>) -> (r: String)
    ensures
        r@ == hex_of(bytes@),
{
    let mut out: Vec<char> = Vec::new();
    let mut i: usize = 0;
    proof {
        assert(bytes@.take(0) == Seq::<u8>::empty());
    }
    while i < bytes.len()
        invariant
            i <= bytes@.len(),
            out@ == hex_of(bytes@.take(i as int)),
        decreases bytes.len() - i,
    {
        let ghost before = out@;
        let b: u8 = bytes[i];
        out.push(numbers::digit_to_char(b / 16));
        out.push(numbers::digit_to_char(b % 16));
        proof {
            let t = bytes@.take(i + 1);
            assert(t.drop_last() == bytes@.take(i as int));
            assert(t.last() == b);
            assert(out@ =~= before + hex_of_byte(b));
        }
        i += 1;
    }
    proof {
        assert(bytes@.take(i as int) == bytes@);
    }
    from_chars(&out)
}

proof fn lemma_bytes_of_prefix(s: Seq<char>, n: int)
    requires
        0 <= n <= s.len(),
        (s.len() - n) % 2 == 0,
        bytes_of(s.take(n)) is None,
    ensures
        bytes_of(s) is None,
    decreases s.len() - n,
{
    if n == s.len() {
        assert(s.take(n) == s);
    } else {
        let t = s.take(n + 2);
        assert(t.take(t.len() - 2) == s.take(n));
        if t.len() != 1 {
            assert(bytes_of(t) is None);
        }
        lemma_bytes_of_prefix(s, n + 2);
    }
}

proof fn lemma_odd_is_none(s: Seq<char>)
    requires
        s.len() % 2 == 1,
    ensures
        bytes_of(s) is None,
    decreases s.len(),
{
    if s.len() > 1 {
        lemma_odd_is_none(s.take(s.len() - 2));
    }
}

proof fn lemma_hex_is_ascii(s: Seq<char>)
    requires
        bytes_of(s) is Some,
    ensures
        s.len() % 2 == 0,
        is_ascii_chars(s),
    decreases s.len(),
{
    if s.len() >= 2 {
        let head = s.take(s.len() - 2);
        lemma_hex_is_ascii(head);
        assert forall|i: int| 0 <= i < s.len() implies '\0' <= #[trigger] s[i] <= '\u{7f}' by {
            if i < head.len() {
                assert(head[i] == s[i]);
            }
        }
    }
}

/// Reads bytes in hexadecimal. The length that decides is that in bytes.
pub fn from_hex(s: &str) -> (r: Result<Vec<u8>, String>)
    ensures
        match r {
            Ok(bytes) => bytes_of(s@) == Some(bytes@),
            Err(why) => {
                &&& bytes_of(s@) is None
                &&& why@ == (if encode_utf8(s@).len() % 2 != 0 {
                    "odd-length hex string ("@ + numbers::decimal(encode_utf8(s@).len()) + " chars)"@
                } else {
                    "invalid digit found in string"@
                })
            },
        },
{
    let len: usize = s.as_bytes().len();
    if len % 2 != 0 {
        proof {
            if bytes_of(s@) is Some {
                lemma_hex_is_ascii(s@);
                is_ascii_chars_encode_utf8(s@);
            }
        }
        let count: String = from_chars(&numbers::decimal_chars(len as u64));
        let head: String = joined_text("odd-length hex string (", count.as_str());
        return Err(joined_text(head.as_str(), " chars)"));
    }
    let chars: Vec<char> = to_chars(s);
    if chars.len() % 2 != 0 {
        proof {
            lemma_odd_is_none(s@);
        }
        return Err(owned("invalid digit found in string"));
    }
    let mut out: Vec<u8> = Vec::new();
    let mut i: usize = 0;
    proof {
        assert(s@.take(0) == Seq::<char>::empty());
    }
    while i < chars.len()
        invariant
            i <= chars@.len(),
            chars@ == s@,
            chars@.len() % 2 == 0,
            i % 2 == 0,
            encode_utf8(s@).len() % 2 == 0,
            bytes_of(s@.take(i as int)) == Some(out@),
        decreases chars.len() - i,
    {
        proof {
            let t = s@.take(i + 2);
            assert(t.take(t.len() - 2) == s@.take(i as int));
            assert(t[t.len() - 2] == chars@[i as int]);
            assert(t.last() == chars@[i + 1]);
        }
        match (numbers::digit(chars[i]), numbers::digit(chars[i + 1])) {
            (Some(high), Some(low)) => {
                out.push(high * 16 + low);
            },
            _ => {
                proof {
                    lemma_bytes_of_prefix(s@, i + 2);
                }
                return Err(owned("invalid digit found in string"));
            },
        }
        i += 2;
    }
    proof {
        assert(s@.take(i as int) == s@);
    }
    Ok(out)
}

/// Bytes written in hexadecimal read back as themselves.
pub proof fn law_hex_reads_back(bytes: Seq<u8>)
    ensures
        bytes_of(hex_of(bytes)) == Some(bytes),
    decreases bytes.len(),
{
    if bytes.len() == 0 {
        assert(hex_of(bytes) == Seq::<char>::empty());
        assert(bytes == Seq::<u8>::empty());
    } else {
        let head = hex_of(bytes.drop_last());
        let pair = hex_of_byte(bytes.last());
        let s = hex_of(bytes);
        law_hex_reads_back(bytes.drop_last());
        assert(s.take(s.len() - 2) =~= head);
        let b = bytes.last();
        let hi = (b / 16) as nat;
        let lo = (b % 16) as nat;
        numbers::lemma_digit_char(hi);
        numbers::lemma_digit_char(lo);
        assert(s[s.len() - 2] == pair[0]);
        assert(s.last() == pair[1]);
        assert(byte_of_pair(pair[0], pair[1]) == Some(b));
        assert(bytes =~= bytes.drop_last().push(b));
    }
}

} // verus!
