//! Window sessions: each window owns one document session. The target
//! document travels in the window URL (`index.html?doc=<rel_path>`), read by
//! the frontend when it mounts.

use vstd::prelude::*;
use vstd::utf8::encode_utf8;

use crate::fmt::{decimal, hex_digit, hex_upper, push_decimal};
use crate::text::{push_char, push_str};

verus! {

/// The characters a byte becomes in a URL query value: `%`, `?`, `#`, `&`,
/// space, `=` and `+` (which query parsers read as a space) are escaped, other printable ASCII stays, and every other
/// byte becomes `%XX` (uppercase hex).
pub open spec fn encode_byte(b: u8) -> Seq<char> {
    if b == 0x25 {
        seq!['%', '2', '5']
    } else if b == 0x3f {
        seq!['%', '3', 'F']
    } else if b == 0x23 {
        seq!['%', '2', '3']
    } else if b == 0x26 {
        seq!['%', '2', '6']
    } else if b == 0x20 {
        seq!['%', '2', '0']
    } else if b == 0x3d {
        seq!['%', '3', 'D']
    } else if b == 0x2b {
        seq!['%', '2', 'B']
    } else if 0x21 <= b <= 0x7e {
        seq![b as char]
    } else {
        seq!['%', hex_upper((b / 16) as nat), hex_upper((b % 16) as nat)]
    }
}

/// The bytes, each encoded.
pub open spec fn encode_bytes(bs: Seq<u8>) -> Seq<char>
    decreases bs.len(),
{
    if bs.len() == 0 {
        seq![]
    } else {
        encode_bytes(bs.drop_last()) + encode_byte(bs.last())
    }
}

/// The percent-encoding of the UTF-8 bytes of `s`.
pub open spec fn spec_urlencode(s: Seq<char>) -> Seq<char> {
    encode_bytes(encode_utf8(s))
}

/// The value of an uppercase hexadecimal digit.
pub open spec fn hex_value(c: char) -> int {
    if '0' <= c && c <= '9' {
        c as int - 48
    } else {
        c as int - 55
    }
}

/// Percent-decoding: `%XY` stands for the byte `0xXY`, any other
/// character for its own code.
pub open spec fn percent_decode(s: Seq<char>) -> Seq<u8>
    decreases s.len(),
{
    if s.len() >= 3 && s[s.len() - 3] == '%' {
        percent_decode(s.subrange(0, s.len() - 3)).push(
            (hex_value(s[s.len() - 2]) * 16 + hex_value(s[s.len() - 1])) as u8,
        )
    } else if s.len() > 0 {
        percent_decode(s.drop_last()).push(s.last() as u8)
    } else {
        seq![]
    }
}

/// A character that may stand in a query value as is: printable ASCII
/// other than the query delimiters `?`, `#`, `&`, `=` and `+`.
pub open spec fn is_query_safe(c: char) -> bool {
    &&& '!' <= c && c <= '~'
    &&& c != '?'
    &&& c != '#'
    &&& c != '&'
    &&& c != '='
    &&& c != '+'
}

/// An uppercase hexadecimal digit.
pub open spec fn is_upper_hex(c: char) -> bool {
    ('0' <= c && c <= '9') || ('A' <= c && c <= 'F')
}

/// Every `%` is followed by two uppercase hexadecimal digits.
pub open spec fn percent_escapes_complete(s: Seq<char>) -> bool {
    forall|i: int|
        0 <= i < s.len() && #[trigger] s[i] == '%' ==> i + 2 < s.len() && is_upper_hex(s[i + 1])
            && is_upper_hex(s[i + 2])
}

proof fn lemma_encode_byte(b: u8)
    ensures
        forall|i: int|
            0 <= i < encode_byte(b).len() ==> is_query_safe(#[trigger] encode_byte(b)[i]),
        encode_byte(b).len() == 1 ==> encode_byte(b)[0] != '%' && encode_byte(b)[0] as u8 == b,
        encode_byte(b).len() == 3 ==> encode_byte(b)[0] == '%' && encode_byte(b)[1] != '%'
            && encode_byte(b)[2] != '%' && hex_value(encode_byte(b)[1]) * 16 + hex_value(
            encode_byte(b)[2],
        ) == b,
        encode_byte(b).len() == 1 || encode_byte(b).len() == 3,
        percent_escapes_complete(encode_byte(b)),
{
    assert(b as int == (b / 16) as int * 16 + (b % 16) as int);
    let e = encode_byte(b);
    if e.len() == 3 && !(0x21 <= b <= 0x7e) {
        let hi = (b / 16) as nat;
        let lo = (b % 16) as nat;
        assert(((48 + hi) as char) as int == 48 + hi);
        assert(((55 + hi) as char) as int == 55 + hi);
        assert(((48 + lo) as char) as int == 48 + lo);
        assert(((55 + lo) as char) as int == 55 + lo);
    }
}

/// The encoding of a byte string holds only query-safe characters, never
/// ends in `%` and never has `%` second to last.
proof fn lemma_encode_bytes(bs: Seq<u8>)
    ensures
        forall|i: int|
            0 <= i < encode_bytes(bs).len() ==> is_query_safe(#[trigger] encode_bytes(bs)[i]),
        encode_bytes(bs).len() >= 1 ==> encode_bytes(bs).last() != '%',
        encode_bytes(bs).len() >= 2 ==> encode_bytes(bs)[encode_bytes(bs).len() - 2] != '%',
        percent_escapes_complete(encode_bytes(bs)),
    decreases bs.len(),
{
    if bs.len() > 0 {
        lemma_encode_bytes(bs.drop_last());
        lemma_encode_byte(bs.last());
        let prev = encode_bytes(bs.drop_last());
        let e = encode_byte(bs.last());
        let s = encode_bytes(bs);
        assert(s == prev + e);
        assert forall|i: int| 0 <= i < s.len() implies is_query_safe(#[trigger] s[i]) by {
            if i < prev.len() {
                assert(s[i] == prev[i]);
            } else {
                assert(s[i] == e[i - prev.len()]);
            }
        }
        if e.len() == 1 && prev.len() >= 1 {
            assert(s[s.len() - 2] == prev.last());
        }
        assert forall|i: int| 0 <= i < s.len() && #[trigger] s[i] == '%' implies i + 2 < s.len()
            && is_upper_hex(s[i + 1]) && is_upper_hex(s[i + 2]) by {
            if i < prev.len() {
                assert(s[i] == prev[i]);
                assert(prev[i] == '%');
                assert(s[i + 1] == prev[i + 1]);
                assert(s[i + 2] == prev[i + 2]);
            } else {
                let j = i - prev.len();
                assert(s[i] == e[j]);
                assert(e[j] == '%');
                assert(s[i + 1] == e[j + 1]);
                assert(s[i + 2] == e[j + 2]);
            }
        }
    }
}

/// Percent-decoding the encoding gives back the bytes.
proof fn lemma_decode_encode(bs: Seq<u8>)
    ensures
        percent_decode(encode_bytes(bs)) == bs,
    decreases bs.len(),
{
    if bs.len() > 0 {
        lemma_decode_encode(bs.drop_last());
        lemma_encode_bytes(bs.drop_last());
        lemma_encode_byte(bs.last());
        let prev = encode_bytes(bs.drop_last());
        let e = encode_byte(bs.last());
        let s = encode_bytes(bs);
        assert(s == prev + e);
        if e.len() == 3 {
            assert(s.subrange(0, s.len() - 3) =~= prev);
            assert(s[s.len() - 3] == '%');
        } else {
            assert(s.drop_last() =~= prev);
            if s.len() >= 3 {
                assert(s[s.len() - 3] == prev[prev.len() - 2]);
            }
        }
        assert(percent_decode(s) =~= bs);
    }
}

/// A percent-encoded path is safe to put in a query value: it holds only
/// printable ASCII other than `?`, `#`, `&`, `=` and `+`, every `%` in it
/// starts a complete `%XX` escape, and decoding it gives back exactly the
/// UTF-8 bytes of the path.
pub proof fn lemma_urlencode_reads_back(s: Seq<char>)
    ensures
        forall|i: int|
            0 <= i < spec_urlencode(s).len() ==> is_query_safe(#[trigger] spec_urlencode(s)[i]),
        percent_escapes_complete(spec_urlencode(s)),
        percent_decode(spec_urlencode(s)) == encode_utf8(s),
{
    lemma_encode_bytes(encode_utf8(s));
    lemma_decode_encode(encode_utf8(s));
}

/// Minimal percent-encoding for paths that end up in a URL query.
pub fn urlencode(s: &str) -> (r: String)
    ensures
        r@ == spec_urlencode(s@),
{
    let bytes = s.as_bytes();
    let mut out = String::new();
    let mut i: usize = 0;
    assert(bytes@.take(0) =~= Seq::<u8>::empty());
    while i < bytes.len()
        invariant
            i <= bytes.len(),
            bytes@ == encode_utf8(s@),
            out@ == encode_bytes(bytes@.take(i as int)),
        decreases bytes.len() - i,
    {
        let b = bytes[i];
        assert(bytes@.take(i + 1).drop_last() =~= bytes@.take(i as int));
        let ghost before = out@;
        if b == 0x25 {
            push_char(&mut out, '%');
            push_char(&mut out, '2');
            push_char(&mut out, '5');
        } else if b == 0x3f {
            push_char(&mut out, '%');
            push_char(&mut out, '3');
            push_char(&mut out, 'F');
        } else if b == 0x23 {
            push_char(&mut out, '%');
            push_char(&mut out, '2');
            push_char(&mut out, '3');
        } else if b == 0x26 {
            push_char(&mut out, '%');
            push_char(&mut out, '2');
            push_char(&mut out, '6');
        } else if b == 0x20 {
            push_char(&mut out, '%');
            push_char(&mut out, '2');
            push_char(&mut out, '0');
        } else if b == 0x3d {
            push_char(&mut out, '%');
            push_char(&mut out, '3');
            push_char(&mut out, 'D');
        } else if b == 0x2b {
            push_char(&mut out, '%');
            push_char(&mut out, '2');
            push_char(&mut out, 'B');
        } else if 0x21 <= b && b <= 0x7e {
            push_char(&mut out, b as char);
        } else {
            push_char(&mut out, '%');
            push_char(&mut out, hex_digit(b / 16, true));
            push_char(&mut out, hex_digit(b % 16, true));
        }
        assert(out@ =~= before + encode_byte(b));
        i += 1;
    }
    assert(bytes@.take(bytes.len() as int) =~= bytes@);
    out
}

/// The URL a window opens: `index.html?doc=<encoded path>`, or
/// `index.html` for a window with no document.
pub open spec fn spec_window_url(rel_path: Option<Seq<char>>) -> Seq<char> {
    match rel_path {
        Some(p) => "index.html?doc="@ + spec_urlencode(p),
        None => "index.html"@,
    }
}

pub struct WindowManager;

impl WindowManager {
    /// The URL of a new window for `rel_path`.
    pub fn window_url(rel_path: Option<&str>) -> (r: String)
        ensures
            r@ == spec_window_url(
                match rel_path {
                    Some(p) => Some(p@),
                    None => None,
                },
            ),
    {
        match rel_path {
            Some(p) => {
                let mut r = "index.html?doc=".to_owned();
                let e = urlencode(p);
                push_str(&mut r, e.as_str());
                r
            },
            None => "index.html".to_owned(),
        }
    }

    /// The label of a window created at `nanos` (nanoseconds since the
    /// epoch): `editor-{nanos}`.
    pub fn window_label(nanos: u128) -> (r: String)
        ensures
            r@ == "editor-"@ + decimal(nanos as nat),
    {
        let mut r = "editor-".to_owned();
        push_decimal(&mut r, nanos);
        r
    }
}

} // verus!
