//! Verified string helpers: character-wise equality, template placeholder
//! substitution, and decimal rendering of integers. These carry the exact
//! contracts that the listing renderer and response builder rely on.
use vstd::prelude::*;
use vstd::string::*;

verus! {

/// True iff the two strings consist of the same characters.
pub fn str_eq(a: &str, b: &str) -> (r: bool)
    ensures
        r == (a@ == b@),
{
    let alen = a.unicode_len();
    let blen = b.unicode_len();
    if alen != blen {
        return false;
    }
    let mut i: usize = 0;
    while i < alen
        invariant
            alen == a@.len(),
            alen == b@.len(),
            i <= alen,
            forall|j: int| 0 <= j < i ==> a@[j] == b@[j],
        decreases alen - i,
    {
        if a.get_char(i) != b.get_char(i) {
            return false;
        }
        i += 1;
    }
    proof {
        assert(a@ =~= b@);
    }
    true
}

/// The text with every non-overlapping occurrence of `pat` replaced by
/// `val`, scanning left to right; the text unchanged when `pat` is empty.
pub open spec fn replace_seq(t: Seq<char>, pat: Seq<char>, val: Seq<char>) -> Seq<char>
    decreases t.len(),
{
    if pat.len() == 0 || t.len() < pat.len() {
        t
    } else if t.subrange(0, pat.len() as int) == pat {
        val + replace_seq(t.subrange(pat.len() as int, t.len() as int), pat, val)
    } else {
        seq![t[0]] + replace_seq(t.subrange(1, t.len() as int), pat, val)
    }
}

/// True iff `pat` occurs in `t` starting at position `i`.
fn match_at(t: &str, tlen: usize, i: usize, pat: &str, plen: usize) -> (r: bool)
    requires
        tlen == t@.len(),
        plen == pat@.len(),
        i + plen <= tlen,
    ensures
        r == (t@.subrange(i as int, i + plen) == pat@),
{
    let mut j: usize = 0;
    while j < plen
        invariant
            tlen == t@.len(),
            plen == pat@.len(),
            i + plen <= tlen,
            j <= plen,
            forall|k: int| 0 <= k < j ==> t@[i + k] == pat@[k],
        decreases plen - j,
    {
        if t.get_char(i + j) != pat.get_char(j) {
            proof {
                assert(t@.subrange(i as int, i + plen)[j as int] == t@[i + j]);
            }
            return false;
        }
        j += 1;
    }
    proof {
        assert(t@.subrange(i as int, i + plen) =~= pat@);
    }
    true
}

/// Replaces every occurrence of `pat` in `t` by `val`.
pub fn replace_all(t: &str, pat: &str, val: &str) -> (r: String)
    ensures
        r@ == replace_seq(t@, pat@, val@),
{
    let tlen = t.unicode_len();
    let plen = pat.unicode_len();
    if plen == 0 {
        return String::from_str(t);
    }
    let mut out = String::new();
    let mut i: usize = 0;
    proof {
        assert(t@.subrange(0, tlen as int) =~= t@);
    }
    while i < tlen
        invariant
            tlen == t@.len(),
            plen == pat@.len(),
            plen > 0,
            i <= tlen,
            out@ + replace_seq(t@.subrange(i as int, tlen as int), pat@, val@) == replace_seq(
                t@,
                pat@,
                val@,
            ),
        decreases tlen - i,
    {
        let ghost rest = t@.subrange(i as int, tlen as int);
        if plen <= tlen - i && match_at(t, tlen, i, pat, plen) {
            out.append(val);
            proof {
                assert(rest.subrange(0, plen as int) =~= t@.subrange(i as int, i + plen));
                assert(rest.subrange(plen as int, rest.len() as int) =~= t@.subrange(
                    (i + plen) as int,
                    tlen as int,
                ));
                assert(replace_seq(rest, pat@, val@) == val@ + replace_seq(
                    t@.subrange((i + plen) as int, tlen as int),
                    pat@,
                    val@,
                ));
            }
            i += plen;
        } else {
            let piece = t.substring_char(i, i + 1);
            out.append(piece);
            proof {
                if rest.len() >= plen {
                    assert(rest.subrange(0, plen as int) =~= t@.subrange(i as int, i + plen));
                    assert(rest.subrange(0, plen as int) != pat@);
                    assert(rest.subrange(1, rest.len() as int) =~= t@.subrange(
                        (i + 1) as int,
                        tlen as int,
                    ));
                    assert(seq![rest[0]] =~= t@.subrange(i as int, (i + 1) as int));
                } else {
                    assert(rest =~= t@.subrange(i as int, (i + 1) as int) + t@.subrange(
                        (i + 1) as int,
                        tlen as int,
                    ));
                    assert(t@.subrange((i + 1) as int, tlen as int).len() < plen);
                }
            }
            i += 1;
        }
    }
    proof {
        assert(t@.subrange(tlen as int, tlen as int) =~= Seq::<char>::empty());
        assert(replace_seq(Seq::<char>::empty(), pat@, val@) == Seq::<char>::empty());
        assert(out@ =~= out@ + Seq::<char>::empty());
    }
    out
}

/// The `{{ name }}` placeholder form used by the built-in templates.
pub open spec fn placeholder(name: Seq<char>) -> Seq<char> {
    seq!['{', '{', ' '] + name + seq![' ', '}', '}']
}

/// Substitutes `value` for every `{{ var_name }}` placeholder in the template.
pub fn render(template: String, var_name: &str, value: &str) -> (r: String)
    ensures
        r@ == replace_seq(template@, placeholder(var_name@), value@),
{
    let mut pat = String::from_str("{{ ");
    pat.append(var_name);
    pat.append(" }}");
    proof {
        reveal_strlit("{{ ");
        reveal_strlit(" }}");
        assert(pat@ =~= placeholder(var_name@));
    }
    replace_all(template.as_str(), pat.as_str(), value)
}

/// The HTML escape of one character: `&`, `<` and `>` become entities,
/// every other character stands as itself.
pub open spec fn escape_char(c: char) -> Seq<char> {
    if c == '&' {
        seq!['&', 'a', 'm', 'p', ';']
    } else if c == '<' {
        seq!['&', 'l', 't', ';']
    } else if c == '>' {
        seq!['&', 'g', 't', ';']
    } else {
        seq![c]
    }
}

/// The HTML escape of a character sequence.
pub open spec fn escape_seq(s: Seq<char>) -> Seq<char>
    decreases s.len(),
{
    if s.len() == 0 {
        Seq::empty()
    } else {
        escape_seq(s.drop_last()) + escape_char(s.last())
    }
}

/// Escapes text for safe embedding in HTML: `&` becomes `&amp;`,
/// `<` becomes `&lt;`, `>` becomes `&gt;`.
pub fn escape_html(input: &str) -> (r: String)
    ensures
        r@ == escape_seq(input@),
{
    let len = input.unicode_len();
    let mut out = String::new();
    let mut i: usize = 0;
    proof {
        assert(input@.subrange(0, 0) =~= Seq::<char>::empty());
    }
    while i < len
        invariant
            len == input@.len(),
            i <= len,
            out@ == escape_seq(input@.subrange(0, i as int)),
        decreases len - i,
    {
        let c = input.get_char(i);
        if c == '&' {
            out.append("&amp;");
            proof {
                reveal_strlit("&amp;");
                assert("&amp;"@ =~= escape_char(c));
            }
        } else if c == '<' {
            out.append("&lt;");
            proof {
                reveal_strlit("&lt;");
                assert("&lt;"@ =~= escape_char(c));
            }
        } else if c == '>' {
            out.append("&gt;");
            proof {
                reveal_strlit("&gt;");
                assert("&gt;"@ =~= escape_char(c));
            }
        } else {
            let piece = input.substring_char(i, i + 1);
            out.append(piece);
            proof {
                assert(piece@ =~= escape_char(c));
            }
        }
        proof {
            assert(input@.subrange(0, (i + 1) as int).drop_last() =~= input@.subrange(0, i as int));
            assert(input@.subrange(0, (i + 1) as int).last() == c);
        }
        i += 1;
    }
    proof {
        assert(input@.subrange(0, len as int) =~= input@);
    }
    out
}

/// The character for one decimal digit.
pub open spec fn dec_digit(d: int) -> char {
    if d == 0 {
        '0'
    } else if d == 1 {
        '1'
    } else if d == 2 {
        '2'
    } else if d == 3 {
        '3'
    } else if d == 4 {
        '4'
    } else if d == 5 {
        '5'
    } else if d == 6 {
        '6'
    } else if d == 7 {
        '7'
    } else if d == 8 {
        '8'
    } else {
        '9'
    }
}

/// The decimal digits of a non-negative integer, most significant first.
pub open spec fn dec_seq(n: int) -> Seq<char>
    decreases n,
{
    if n < 10 {
        seq![dec_digit(n)]
    } else {
        dec_seq(n / 10) + seq![dec_digit(n % 10)]
    }
}

/// One decimal digit as a string.
fn digit_str(d: u64) -> (r: &'static str)
    requires
        d < 10,
    ensures
        r@ == seq![dec_digit(d as int)],
{
    proof {
        reveal_strlit("0");
        reveal_strlit("1");
        reveal_strlit("2");
        reveal_strlit("3");
        reveal_strlit("4");
        reveal_strlit("5");
        reveal_strlit("6");
        reveal_strlit("7");
        reveal_strlit("8");
        reveal_strlit("9");
    }
    let r = if d == 0 {
        "0"
    } else if d == 1 {
        "1"
    } else if d == 2 {
        "2"
    } else if d == 3 {
        "3"
    } else if d == 4 {
        "4"
    } else if d == 5 {
        "5"
    } else if d == 6 {
        "6"
    } else if d == 7 {
        "7"
    } else if d == 8 {
        "8"
    } else {
        "9"
    };
    proof {
        assert(r@ =~= seq![dec_digit(d as int)]);
    }
    r
}

/// Renders a non-negative integer in decimal.
pub fn u64_to_dec(n: u64) -> (r: String)
    ensures
        r@ == dec_seq(n as int),
    decreases n,
{
    if n < 10 {
        String::from_str(digit_str(n))
    } else {
        let mut s = u64_to_dec(n / 10);
        s.append(digit_str(n % 10));
        s
    }
}

} // verus!
