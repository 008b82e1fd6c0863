//! String helpers: prefixes, trimming and decimal numerals, stated over the
//! character view of `str` and tied to its bytes where bytes are compared.

use vstd::prelude::*;
use vstd::string::*;
use vstd::utf8::{
    char_u32_cast, decode_first_scalar, encode_scalar, encode_utf8, encode_utf8_first_scalar,
    length_of_first_scalar,
};

verus! {

/// The decimal digit `d` as a character.
pub open spec fn digit_char(d: nat) -> char
    recommends
        d < 10,
{
    if d == 0 {
        '0'
    } else if d == 1 {
        '1'
    } else if d == 2 {
        '2'
    } else if d == 3 {
        '3'
    } else if d == 4 {
        '4'
    } else if d == 5 {
        '5'
    } else if d == 6 {
        '6'
    } else if d == 7 {
        '7'
    } else if d == 8 {
        '8'
    } else {
        '9'
    }
}

/// The decimal numeral of `n`, most significant digit first, without
/// leading zeros (`0` is written `"0"`).
pub open spec fn decimal(n: nat) -> Seq<char>
    decreases n,
{
    if n < 10 {
        seq![digit_char(n)]
    } else {
        decimal(n / 10).push(digit_char(n % 10))
    }
}

/// `s` without its longest leading run of the character `c`.
pub open spec fn trim_leading(s: Seq<char>, c: char) -> Seq<char>
    decreases s.len(),
{
    if s.len() > 0 && s[0] == c {
        trim_leading(s.drop_first(), c)
    } else {
        s
    }
}

/// The view of an optional string slice.
pub open spec fn opt_view(s: Option<&str>) -> Option<Seq<char>> {
    match s {
        Some(t) => Some(t@),
        None => None,
    }
}

/// Trimming leaves a suffix of the input that does not start with `c`.
pub proof fn lemma_trim_leading(s: Seq<char>, c: char)
    ensures
        trim_leading(s, c).len() <= s.len(),
        trim_leading(s, c) == s.skip(s.len() - trim_leading(s, c).len()),
        trim_leading(s, c).len() > 0 ==> trim_leading(s, c)[0] != c,
        forall|i: int| 0 <= i < s.len() - trim_leading(s, c).len() ==> s[i] == c,
    decreases s.len(),
{
    if s.len() > 0 && s[0] == c {
        let t = s.drop_first();
        lemma_trim_leading(t, c);
        let r = trim_leading(t, c);
        assert(t.skip(t.len() - r.len()) =~= s.skip(s.len() - r.len()));
        assert forall|i: int| 0 <= i < s.len() - r.len() implies s[i] == c by {
            if i > 0 {
                assert(s[i] == t[i - 1]);
            }
        }
    } else {
        assert(s.skip(0) =~= s);
    }
}

/// The encoding of a concatenation is the concatenation of the encodings.
pub proof fn lemma_encode_concat(a: Seq<char>, b: Seq<char>)
    ensures
        encode_utf8(a + b) == encode_utf8(a) + encode_utf8(b),
    decreases a.len(),
{
    if a.len() == 0 {
        assert(a + b =~= b);
        assert(encode_utf8(a) + encode_utf8(b) =~= encode_utf8(b));
    } else {
        lemma_encode_concat(a.drop_first(), b);
        assert((a + b).drop_first() =~= a.drop_first() + b);
        assert(encode_utf8(a + b) =~= encode_utf8(a) + encode_utf8(b));
    }
}

/// A string starts with another character by character exactly when its
/// encoding starts with the other's encoding byte by byte.
pub proof fn lemma_prefix_by_bytes(p: Seq<char>, s: Seq<char>)
    ensures
        p.is_prefix_of(s) <==> encode_utf8(p).is_prefix_of(encode_utf8(s)),
    decreases p.len(),
{
    let ep = encode_utf8(p);
    let es = encode_utf8(s);
    if p.is_prefix_of(s) {
        let rest = s.skip(p.len() as int);
        assert(s =~= p + rest);
        lemma_encode_concat(p, rest);
        assert(ep =~= es.subrange(0, ep.len() as int));
    }
    if ep.is_prefix_of(es) {
        if p.len() == 0 {
            assert(p =~= s.subrange(0, 0));
        } else {
            let e0 = encode_scalar(p[0] as u32);
            let pt = p.drop_first();
            encode_utf8_first_scalar(p);
            assert(es.len() >= ep.len() >= 1);
            assert(s.len() > 0);
            let st = s.drop_first();
            encode_utf8_first_scalar(s);
            assert(length_of_first_scalar(ep) <= ep.len());
            assert(forall|i: int| 0 <= i < ep.len() ==> ep[i] == es.subrange(0, ep.len() as int)[i]);
            assert(forall|i: int| 0 <= i < ep.len() ==> ep[i] == es[i]);
            assert(decode_first_scalar(es) == decode_first_scalar(ep));
            char_u32_cast(p[0], decode_first_scalar(ep));
            char_u32_cast(s[0], decode_first_scalar(ep));
            assert(p[0] == s[0]);
            assert(encode_utf8(pt) =~= ep.subrange(e0.len() as int, ep.len() as int));
            assert(encode_utf8(st) =~= es.subrange(e0.len() as int, es.len() as int));
            assert(encode_utf8(pt) =~= encode_utf8(st).subrange(0, encode_utf8(pt).len() as int));
            lemma_prefix_by_bytes(pt, st);
            assert(p =~= s.subrange(0, p.len() as int)) by {
                assert(pt =~= st.subrange(0, pt.len() as int));
                assert forall|i: int| 0 <= i < p.len() implies p[i] == s[i] by {
                    if i > 0 {
                        assert(p[i] == pt[i - 1]);
                        assert(pt[i - 1] == st.subrange(0, pt.len() as int)[i - 1]);
                    }
                }
            }
        }
    }
}

/// Whether `s` begins with `prefix`: a plain comparison of the leading
/// bytes, which for strings is a comparison of the leading characters.
pub fn starts_with(s: &str, prefix: &str) -> (r: bool)
    ensures
        r == prefix@.is_prefix_of(s@),
        r == prefix.spec_bytes().is_prefix_of(s.spec_bytes()),
{
    let text = s.as_bytes();
    let head = prefix.as_bytes();
    proof {
        lemma_prefix_by_bytes(prefix@, s@);
    }
    if head.len() > text.len() {
        return false;
    }
    let mut i: usize = 0;
    while i < head.len()
        invariant
            head@ == prefix.spec_bytes(),
            text@ == s.spec_bytes(),
            prefix@.is_prefix_of(s@) <==> head@.is_prefix_of(text@),
            head.len() <= text.len(),
            i <= head.len(),
            forall|j: int| 0 <= j < i ==> head@[j] == text@[j],
        decreases head.len() - i,
    {
        if head[i] != text[i] {
            assert(text@.subrange(0, head@.len() as int)[i as int] == text@[i as int]);
            return false;
        }
        i += 1;
    }
    assert(head@ =~= text@.subrange(0, head@.len() as int));
    true
}

/// `s` without the leading `prefix`, or `None` where `s` does not begin
/// with it.
pub fn strip_prefix<'a>(s: &'a str, prefix: &str) -> (r: Option<&'a str>)
    ensures
        match r {
            Some(rest) => prefix@.is_prefix_of(s@) && rest@ == s@.skip(prefix@.len() as int),
            None => !prefix@.is_prefix_of(s@),
        },
{
    if starts_with(s, prefix) {
        let n: usize = prefix.unicode_len();
        let m: usize = s.unicode_len();
        let rest = s.substring_char(n, m);
        assert(s@.subrange(n as int, m as int) =~= s@.skip(n as int));
        Some(rest)
    } else {
        None
    }
}

/// `s` without its leading slashes.
pub fn trim_start_slashes<'a>(s: &'a str) -> (r: &'a str)
    ensures
        r@ == trim_leading(s@, '/'),
{
    let m: usize = s.unicode_len();
    let mut i: usize = 0;
    assert(s@.skip(0) =~= s@);
    while i < m && s.get_char(i) == '/'
        invariant
            m == s@.len(),
            i <= m,
            trim_leading(s@, '/') == trim_leading(s@.skip(i as int), '/'),
        decreases m - i,
    {
        proof {
            let t = s@.skip(i as int);
            assert(t[0] == s@[i as int]);
            assert(t.drop_first() =~= s@.skip(i + 1));
        }
        i += 1;
    }
    proof {
        let t = s@.skip(i as int);
        if i < m {
            assert(t[0] == s@[i as int]);
        }
        assert(s@.subrange(i as int, m as int) =~= t);
    }
    s.substring_char(i, m)
}

/// The one-character string of the decimal digit `d`.
fn digit_str(d: u16) -> (r: &'static str)
    requires
        d < 10,
    ensures
        r@ == seq![digit_char(d as nat)],
{
    let r = if d == 0 {
        "0"
    } else if d == 1 {
        "1"
    } else if d == 2 {
        "2"
    } else if d == 3 {
        "3"
    } else if d == 4 {
        "4"
    } else if d == 5 {
        "5"
    } else if d == 6 {
        "6"
    } else if d == 7 {
        "7"
    } else if d == 8 {
        "8"
    } else {
        "9"
    };
    proof {
        reveal_strlit("0");
        reveal_strlit("1");
        reveal_strlit("2");
        reveal_strlit("3");
        reveal_strlit("4");
        reveal_strlit("5");
        reveal_strlit("6");
        reveal_strlit("7");
        reveal_strlit("8");
        reveal_strlit("9");
        assert(r@ =~= seq![digit_char(d as nat)]);
    }
    r
}

/// Appends the decimal numeral of `n` to `out`.
pub fn push_decimal(out: &mut String, n: u16)
    ensures
        final(out)@ == old(out)@ + decimal(n as nat),
    decreases n,
{
    if n >= 10 {
        push_decimal(out, n / 10);
    }
    let d = digit_str(n % 10);
    out.append(d);
    proof {
        if n >= 10 {
            assert(final(out)@ =~= old(out)@ + decimal(n as nat));
        }
    }
}

} // verus!
