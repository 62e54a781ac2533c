//! A reference-counted immutable string that is built from the UTF-16 text Qt hands over
//! (a `QString`) or from a Rust string.
use std::rc::Rc;
use vstd::prelude::*;
use vstd::utf8::*;

verus! {

broadcast use vstd::utf8::char_is_scalar;

/// True for the first unit of a surrogate pair.
pub open spec fn is_high_surrogate(u: u16) -> bool {
    0xD800 <= u <= 0xDBFF
}

/// True for the second unit of a surrogate pair.
pub open spec fn is_low_surrogate(u: u16) -> bool {
    0xDC00 <= u <= 0xDFFF
}

/// True for a unit that is part of a surrogate pair.
pub open spec fn is_surrogate(u: u16) -> bool {
    0xD800 <= u <= 0xDFFF
}

/// The scalar that the surrogate pair `hi`, `lo` encodes.
pub open spec fn pair_scalar(hi: u16, lo: u16) -> u32 {
    (0x10000 + (hi - 0xD800) * 0x400 + (lo - 0xDC00)) as u32
}

/// Puts `prefix` in front of a decoded text, if there is one.
pub open spec fn prepend(prefix: Seq<char>, rest: Option<Seq<char>>) -> Option<Seq<char>> {
    match rest {
        Some(r) => Some(prefix + r),
        None => None,
    }
}

/// The text that the UTF-16 `units` encode, or `None` when they hold a surrogate that is not
/// part of a well-formed pair.
pub open spec fn decode_utf16(units: Seq<u16>) -> Option<Seq<char>>
    decreases units.len(),
{
    if units.len() == 0 {
        Some(Seq::empty())
    } else if !is_surrogate(units[0]) {
        prepend(seq![units[0] as u32 as char], decode_utf16(units.drop_first()))
    } else if is_high_surrogate(units[0]) && units.len() >= 2 && is_low_surrogate(units[1]) {
        prepend(
            seq![pair_scalar(units[0], units[1]) as char],
            decode_utf16(units.subrange(2, units.len() as int)),
        )
    } else {
        None
    }
}

/// The UTF-16 encoding of one character.
pub open spec fn encode_utf16_char(c: char) -> Seq<u16> {
    if (c as u32) < 0x10000 {
        seq![c as u32 as u16]
    } else {
        seq![
            (0xD800 + ((c as u32) - 0x10000) / 0x400) as u16,
            (0xDC00 + ((c as u32) - 0x10000) % 0x400) as u16,
        ]
    }
}

/// The UTF-16 encoding of a text.
pub open spec fn encode_utf16(chars: Seq<char>) -> Seq<u16>
    decreases chars.len(),
{
    if chars.len() == 0 {
        Seq::empty()
    } else {
        encode_utf16_char(chars[0]) + encode_utf16(chars.drop_first())
    }
}

/// Decoding the UTF-16 encoding of any text gives that text back.
pub proof fn lemma_utf16_round_trip(chars: Seq<char>)
    ensures
        decode_utf16(encode_utf16(chars)) == Some(chars),
    decreases chars.len(),
{
    if chars.len() > 0 {
        let c = chars[0];
        let u = c as u32;
        let units = encode_utf16(chars);
        let head = encode_utf16_char(c);
        let rest = encode_utf16(chars.drop_first());
        assert(units == head + rest);
        lemma_utf16_round_trip(chars.drop_first());
        vstd::utf8::char_is_scalar(c);
        vstd::utf8::char_u32_cast(c, u);
        if u < 0x10000 {
            assert(units[0] == u as u16);
            assert(units.drop_first() =~= rest);
            assert((u as u16) as u32 == u) by (bit_vector)
                requires
                    u < 0x10000,
            ;
            assert(seq![c] + chars.drop_first() =~= chars);
        } else {
            let hi = (0xD800 + (u - 0x10000) / 0x400) as u16;
            let lo = (0xDC00 + (u - 0x10000) % 0x400) as u16;
            assert(units[0] == hi && units[1] == lo);
            assert(hi as int == 0xD800 + (u - 0x10000) / 0x400);
            assert(lo as int == 0xDC00 + (u - 0x10000) % 0x400);
            assert(units.subrange(2, units.len() as int) =~= rest);
            assert(pair_scalar(hi, lo) == u);
            assert(seq![c] + chars.drop_first() =~= chars);
        }
    }
}

/// Only valid UTF-16 decodes: whatever `units` decode to encodes back to exactly `units`.
pub proof fn lemma_decode_utf16_only_valid(units: Seq<u16>)
    ensures
        decode_utf16(units) matches Some(t) ==> encode_utf16(t) == units,
    decreases units.len(),
{
    if units.len() > 0 {
        let u = units[0];
        if !is_surrogate(u) {
            let rest = units.drop_first();
            lemma_decode_utf16_only_valid(rest);
            if decode_utf16(rest) is Some {
                let tr = decode_utf16(rest).unwrap();
                let c = u as u32 as char;
                let t = seq![c] + tr;
                assert(c as u32 == u as u32);
                assert((u as u32) as u16 == u) by (bit_vector);
                assert(t[0] == c);
                assert(t.drop_first() =~= tr);
                assert(encode_utf16_char(c) =~= seq![u]);
                assert(encode_utf16(t) =~= units);
            }
        } else if is_high_surrogate(u) && units.len() >= 2 && is_low_surrogate(units[1]) {
            let lo = units[1];
            let rest = units.subrange(2, units.len() as int);
            lemma_decode_utf16_only_valid(rest);
            if decode_utf16(rest) is Some {
                let tr = decode_utf16(rest).unwrap();
                let p = pair_scalar(u, lo);
                let c = p as char;
                let t = seq![c] + tr;
                let x: int = (u - 0xD800) as int;
                let y: int = (lo - 0xDC00) as int;
                assert(0 <= x < 0x400 && 0 <= y < 0x400);
                assert(p as int == 0x10000 + x * 0x400 + y);
                assert(c as u32 == p);
                assert((x * 0x400 + y) / 0x400 == x && (x * 0x400 + y) % 0x400 == y) by {
                    vstd::arithmetic::div_mod::lemma_fundamental_div_mod_converse(
                        x * 0x400 + y,
                        0x400,
                        x,
                        y,
                    );
                }
                assert(t[0] == c);
                assert(t.drop_first() =~= tr);
                assert(encode_utf16_char(c) =~= seq![u, lo]);
                assert(encode_utf16(t) =~= units);
            }
        }
    }
}

/// A surrogate that is not part of a well-formed pair makes the whole text invalid: a low
/// surrogate first, or a high surrogate not followed by a low one, decodes to nothing.
pub proof fn lemma_unpaired_surrogate_refused(units: Seq<u16>)
    requires
        units.len() > 0,
        is_low_surrogate(units[0]) || (is_high_surrogate(units[0]) && (units.len() < 2
            || !is_low_surrogate(units[1]))),
    ensures
        decode_utf16(units) is None,
{
}

/// The UTF-8 encoding of two texts one after the other is the two encodings one after the
/// other.
proof fn lemma_encode_utf8_concat(a: Seq<char>, b: Seq<char>)
    ensures
        encode_utf8(a + b) == encode_utf8(a) + encode_utf8(b),
    decreases a.len(),
{
    if a.len() == 0 {
        assert(a + b =~= b);
        assert(encode_utf8(a) + encode_utf8(b) =~= encode_utf8(b));
    } else {
        assert((a + b).drop_first() =~= a.drop_first() + b);
        lemma_encode_utf8_concat(a.drop_first(), b);
        assert(encode_utf8(a + b) =~= encode_utf8(a) + encode_utf8(b));
    }
}

/// The UTF-8 encoding of a single character is the encoding of its scalar.
proof fn lemma_encode_one(ch: char)
    ensures
        encode_utf8(seq![ch]) == encode_scalar(ch as u32),
{
    let s = seq![ch];
    assert(s[0] == ch);
    assert(s.drop_first() =~= Seq::<char>::empty());
    assert(encode_utf8(Seq::<char>::empty()) == Seq::<u8>::empty());
    assert(encode_utf8(s) =~= encode_scalar(ch as u32));
}

/// Appends the UTF-8 encoding of the scalar `c` to `buf`.
fn push_utf8(buf: &mut Vec<u8>, c: u32)
    requires
        is_scalar(c),
    ensures
        final(buf)@ == old(buf)@ + encode_scalar(c),
{
    if c <= 0x7F {
        buf.push((c & 0x7F) as u8);
    } else if c <= 0x7FF {
        buf.push(0xC0 | ((c >> 6) & 0x1F) as u8);
        buf.push(0x80 | (c & 0x3F) as u8);
    } else if c <= 0xFFFF {
        buf.push(0xE0 | ((c >> 12) & 0x0F) as u8);
        buf.push(0x80 | ((c >> 6) & 0x3F) as u8);
        buf.push(0x80 | (c & 0x3F) as u8);
    } else {
        buf.push(0xF0 | ((c >> 18) & 0x7) as u8);
        buf.push(0x80 | ((c >> 12) & 0x3F) as u8);
        buf.push(0x80 | ((c >> 6) & 0x3F) as u8);
        buf.push(0x80 | (c & 0x3F) as u8);
    }
    assert(buf@ =~= old(buf)@ + encode_scalar(c));
}

/// Reads UTF-8 bytes as a `str` with `std::str::from_utf8`, which borrows the bytes and gives
/// back the text they encode when they are valid UTF-8.
#[verifier::external_body]
fn str_from_utf8(bytes: &[u8]) -> (r: &str)
    requires
        valid_utf8(bytes@),
    ensures
        r@ == decode_utf8(bytes@),
{
    std::str::from_utf8(bytes).unwrap()
}

/// Copies the text of `s` into a single reference-counted block with `Rc::<str>::from`, which
/// holds the same text.
#[verifier::external_body]
fn rc_str_from(s: &str) -> (r: Rc<str>)
    ensures
        (*r)@ == s@,
{
    Rc::from(s)
}

/// A reference-counted immutable string: one block holds the count and the text.
pub struct Str {
    text: Rc<str>,
}

impl View for Str {
    type V = Seq<char>;

    closed spec fn view(&self) -> Seq<char> {
        (*self.text)@
    }
}

impl Str {
    /// Creates [Str] from a UTF-16 string.
    ///
    /// Returns [None] if `v` is not valid UTF-16.
    pub fn from_utf16(v: &[u16]) -> (r: Option<Str>)
        ensures
            match decode_utf16(v@) {
                Some(text) => r matches Some(s) && s@ == text,
                None => r is None,
            },
            r matches Some(s) ==> encode_utf16(s@) == v@,
    {
        proof {
            lemma_decode_utf16_only_valid(v@);
        }
        let n = v.len();
        let mut bytes: Vec<u8> = Vec::new();
        let ghost mut done: Seq<char> = Seq::empty();
        let mut i: usize = 0;
        assert(v@.subrange(0, n as int) =~= v@);
        assert(prepend(done, decode_utf16(v@)) == decode_utf16(v@)) by {
            if decode_utf16(v@) is Some {
                assert(done + decode_utf16(v@).unwrap() =~= decode_utf16(v@).unwrap());
            }
        }
        while i < n
            invariant
                n == v@.len(),
                i <= n,
                bytes@ == encode_utf8(done),
                decode_utf16(v@) == prepend(done, decode_utf16(v@.subrange(i as int, n as int))),
            decreases n - i,
        {
            let ghost rest = v@.subrange(i as int, n as int);
            let u = v[i];
            if u < 0xD800 || u > 0xDFFF {
                let c = u as u32;
                assert(rest[0] == u);
                assert(rest.drop_first() =~= v@.subrange(i + 1, n as int));
                assert(is_scalar(c));
                let ghost ch = c as char;
                assert(ch as u32 == c);
                push_utf8(&mut bytes, c);
                proof {
                    lemma_encode_utf8_concat(done, seq![ch]);
                    lemma_encode_one(ch);
                    assert(done.push(ch) =~= done + seq![ch]);
                    let tail = decode_utf16(rest.drop_first());
                    if tail is Some {
                        assert(done + (seq![ch] + tail.unwrap()) =~= done.push(ch) + tail.unwrap());
                    }
                    done = done.push(ch);
                }
                i = i + 1;
            } else if u <= 0xDBFF && i + 1 < n && v[i + 1] >= 0xDC00 && v[i + 1] <= 0xDFFF {
                let lo = v[i + 1];
                let c: u32 = 0x10000 + ((u - 0xD800) as u32) * 0x400 + ((lo - 0xDC00) as u32);
                assert(rest[0] == u && rest[1] == lo);
                assert(rest.subrange(2, rest.len() as int) =~= v@.subrange(i + 2, n as int));
                assert(c == pair_scalar(u, lo));
                assert(is_scalar(c));
                let ghost ch = c as char;
                assert(ch as u32 == c);
                push_utf8(&mut bytes, c);
                proof {
                    lemma_encode_utf8_concat(done, seq![ch]);
                    lemma_encode_one(ch);
                    assert(done.push(ch) =~= done + seq![ch]);
                    let tail = decode_utf16(rest.subrange(2, rest.len() as int));
                    if tail is Some {
                        assert(done + (seq![ch] + tail.unwrap()) =~= done.push(ch) + tail.unwrap());
                    }
                    done = done.push(ch);
                }
                i = i + 2;
            } else {
                assert(rest[0] == u);
                if i + 1 < n {
                    assert(rest[1] == v@[i + 1]);
                }
                return None;
            }
        }
        proof {
            assert(v@.subrange(n as int, n as int) =~= Seq::<u16>::empty());
            assert(done + Seq::<char>::empty() =~= done);
            vstd::utf8::encode_utf8_valid_utf8(done);
            vstd::utf8::encode_utf8_decode_utf8(done);
        }
        let text = str_from_utf8(bytes.as_slice());
        Some(Str { text: rc_str_from(text) })
    }

    /// Creates [Str] holding the text of `v`.
    pub fn from_str(v: &str) -> (r: Str)
        ensures
            r@ == v@,
    {
        Str { text: rc_str_from(v) }
    }

    /// The text of this string.
    pub fn as_str(&self) -> (r: &str)
        ensures
            r@ == self@,
    {
        &*self.text
    }

    /// Another reference to the same text; the text is shared, not copied.
    pub fn share(&self) -> (r: Str)
        ensures
            r@ == self@,
    {
        Str { text: Rc::clone(&self.text) }
    }
}

impl Clone for Str {
    /// Another reference to the same text, as [Str::share] gives.
    fn clone(&self) -> (r: Str)
        ensures
            r@ == self@,
    {
        self.share()
    }
}

} // verus!
