//! What searching, trimming and counting in text mean.
use crate::text;
use vstd::prelude::*;

verus! {

/// A text is found in another one exactly where that is made of something, the text, and something.
pub proof fn law_contained_text_is_found(s: Seq<char>, p: Seq<char>)
    ensures
        text::contains(s, p) <==> exists|a: Seq<char>, b: Seq<char>| s == #[trigger] (a + p + b),
{
    if text::contains(s, p) {
        let i = choose|i: int| text::occurs_at(s, p, i);
        let a = s.take(i);
        let b = s.skip(i + p.len());
        assert(s =~= a + s.subrange(i, i + p.len()) + b);
        assert(s == a + p + b);
    }
    if exists|a: Seq<char>, b: Seq<char>| s == #[trigger] (a + p + b) {
        let (a, b) = choose|a: Seq<char>, b: Seq<char>| s == #[trigger] (a + p + b);
        assert(s.subrange(a.len() as int, (a.len() + p.len()) as int) =~= p);
        assert(text::occurs_at(s, p, a.len() as int));
    }
}

/// A text begins with another one exactly where something can be put behind that to make it, and ends
/// with another one exactly where something can be put before that.
pub proof fn law_beginnings_and_endings(s: Seq<char>, p: Seq<char>)
    ensures
        text::starts_with(s, p) <==> exists|b: Seq<char>| s == #[trigger] (p + b),
        text::ends_with(s, p) <==> exists|a: Seq<char>| s == #[trigger] (a + p),
{
    if text::starts_with(s, p) {
        let b = s.skip(p.len() as int);
        assert(s =~= s.take(p.len() as int) + b);
        assert(s == p + b);
    }
    if exists|b: Seq<char>| s == #[trigger] (p + b) {
        let b = choose|b: Seq<char>| s == #[trigger] (p + b);
        assert(s.take(p.len() as int) =~= p);
    }
    if text::ends_with(s, p) {
        let a = s.take(s.len() - p.len());
        assert(s =~= a + s.skip(s.len() - p.len()));
        assert(s == a + p);
    }
    if exists|a: Seq<char>| s == #[trigger] (a + p) {
        let a = choose|a: Seq<char>| s == #[trigger] (a + p);
        assert(s.skip(s.len() - p.len()) =~= p);
    }
}

/// The capital letters of ASCII are made small, each by itself, and nothing else changes.
pub proof fn law_small_letters(s: Seq<char>, i: int)
    requires
        0 <= i < s.len(),
    ensures
        text::ascii_lower(s).len() == s.len(),
        'A' <= s[i] && s[i] <= 'Z' ==> text::ascii_lower(s)[i] as int == s[i] as int + 32,
        !('A' <= s[i] && s[i] <= 'Z') ==> text::ascii_lower(s)[i] == s[i],
{
}

/// Of the ASCII characters the space and those from the tab to the carriage return are white space.
pub proof fn law_ascii_white_space(c: char)
    requires
        (c as int) < 128,
    ensures
        text::is_white(c) <==> c == ' ' || (9 <= c as int && c as int <= 13),
{
}

/// The digits of a number: the last one counts ones, and those before it are the digits of the number
/// of tens, if there are any.
pub proof fn law_digits_of_a_number(n: nat)
    ensures
        text::decimal(n).len() > 0,
        text::decimal(n).last() as int == '0' as int + n % 10,
        n >= 10 ==> text::decimal(n).drop_last() == text::decimal(n / 10),
        n < 10 ==> text::decimal(n).len() == 1,
{
    if n >= 10 {
        assert(text::decimal(n).drop_last() =~= text::decimal(n / 10));
    }
}

/// A negative number is shown as a minus sign and the digits of its amount.
pub proof fn law_digits_of_a_signed_number(n: int)
    ensures
        n >= 0 ==> text::signed_decimal(n) == text::decimal(n as nat),
        n < 0 ==> text::signed_decimal(n) == seq!['-'] + text::decimal((-n) as nat),
{
}

/// What is trimmed is white space, all of it at both ends and nothing else.
pub proof fn law_trimming(s: Seq<char>)
    ensures
        text::trim(s).len() > 0 ==> !text::is_white(text::trim(s).first()) && !text::is_white(
            text::trim(s).last(),
        ),
        exists|a: Seq<char>, b: Seq<char>|
            s == #[trigger] (a + text::trim(s) + b) && (forall|i: int|
                0 <= i < a.len() ==> text::is_white(#[trigger] a[i])) && (forall|i: int|
                0 <= i < b.len() ==> text::is_white(#[trigger] b[i])),
{
    let t = text::trim_start(s);
    let a = lemma_trim_start(s);
    let b = lemma_trim_end(t);
    let r = text::trim(s);
    assert(s =~= a + r + b);
    if r.len() > 0 {
        text::lemma_trim_start_len(s);
        assert(r.first() == t.first());
    }
}

proof fn lemma_trim_start(s: Seq<char>) -> (a: Seq<char>)
    ensures
        s == a + text::trim_start(s),
        forall|i: int| 0 <= i < a.len() ==> text::is_white(#[trigger] a[i]),
    decreases s.len(),
{
    if s.len() > 0 && text::is_white(s.first()) {
        let rest = lemma_trim_start(s.drop_first());
        let a = seq![s.first()] + rest;
        assert(s =~= seq![s.first()] + s.drop_first());
        assert(s =~= a + text::trim_start(s));
        assert forall|i: int| 0 <= i < a.len() implies text::is_white(#[trigger] a[i]) by {
            if i > 0 {
                assert(a[i] == rest[i - 1]);
            }
        }
        a
    } else {
        assert(s =~= Seq::<char>::empty() + s);
        Seq::empty()
    }
}

proof fn lemma_trim_end(s: Seq<char>) -> (b: Seq<char>)
    ensures
        s == text::trim_end(s) + b,
        forall|i: int| 0 <= i < b.len() ==> text::is_white(#[trigger] b[i]),
        text::trim_end(s).len() > 0 ==> !text::is_white(text::trim_end(s).last()),
    decreases s.len(),
{
    if s.len() > 0 && text::is_white(s.last()) {
        let rest = lemma_trim_end(s.drop_last());
        let b = rest.push(s.last());
        assert(s =~= s.drop_last().push(s.last()));
        assert(s =~= text::trim_end(s) + b);
        b
    } else {
        assert(s =~= s + Seq::<char>::empty());
        Seq::empty()
    }
}

/// Parts that were joined: one part is itself, and each further one stands behind a separator.
pub proof fn law_joining(parts: Seq<Seq<char>>, sep: Seq<char>, part: Seq<char>)
    ensures
        text::join(Seq::empty(), sep) == Seq::<char>::empty(),
        text::join(seq![part], sep) == part,
        parts.len() > 0 ==> text::join(parts.push(part), sep) == text::join(parts, sep) + sep
            + part,
{
    assert(parts.push(part).drop_last() =~= parts);
}

} // verus!
