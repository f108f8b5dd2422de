//! Turning host names into valid identifiers.
use vstd::prelude::*;
use crate::text::{chars_of, decimal, push_char, push_decimal, push_str};

verus! {

/// A host name: its text and a numeric suffix, where 0 means "no suffix" and
/// `k > 0` stands for the suffix `k - 1`.
pub struct HostName {
    pub text: String,
    pub number: u32,
}

/// A character that may stand in an identifier.
pub open spec fn is_ident_char(c: char) -> bool {
    ('a' <= c && c <= 'z') || ('A' <= c && c <= 'Z') || ('0' <= c && c <= '9') || c == '_'
}

pub open spec fn is_digit_char(c: char) -> bool {
    '0' <= c && c <= '9'
}

/// The pieces of `s` (maximal runs of identifier characters) joined by one
/// underscore each. `started`: a piece was already written; `gap`: separators
/// came after it.
pub open spec fn squash(s: Seq<char>, started: bool, gap: bool) -> Seq<char>
    decreases s.len(),
{
    if s.len() == 0 {
        Seq::empty()
    } else if is_ident_char(s[0]) {
        (if gap {
            seq!['_', s[0]]
        } else {
            seq![s[0]]
        }) + squash(s.drop_first(), true, false)
    } else {
        squash(s.drop_first(), started, started)
    }
}

/// The number of pieces of `s` that start after this point.
pub open spec fn piece_count(s: Seq<char>, in_piece: bool) -> nat
    decreases s.len(),
{
    if s.len() == 0 {
        0
    } else if is_ident_char(s[0]) {
        (if in_piece {
            0nat
        } else {
            1nat
        }) + piece_count(s.drop_first(), true)
    } else {
        piece_count(s.drop_first(), false)
    }
}

/// The identifier for the text `s`, without the numeric suffix.
pub open spec fn clean_text(s: Seq<char>) -> Seq<char> {
    if s.len() > 0 && is_digit_char(s[0]) {
        "Func_"@ + squash(s, false, false)
    } else {
        squash(s, false, false)
    }
}

/// The suffix that a host number adds.
pub open spec fn number_suffix(number: nat) -> Seq<char> {
    if number > 0 {
        seq!['_'] + decimal((number - 1) as nat)
    } else {
        Seq::empty()
    }
}

/// The identifier for a host name.
pub open spec fn cleaned(s: Seq<char>, number: nat) -> Seq<char> {
    clean_text(s) + number_suffix(number)
}

/// How many invalid segments were replaced: the pieces joined, less one,
/// and never below zero.
pub open spec fn replaced_count(s: Seq<char>) -> nat {
    if piece_count(s, false) > 0 {
        (piece_count(s, false) - 1) as nat
    } else {
        0
    }
}

/// What follows the last `:` of `s`; all of `s` when it has none.
pub open spec fn after_last_colon(s: Seq<char>) -> Seq<char>
    decreases s.len(),
{
    if s.len() == 0 {
        s
    } else if s.last() == ':' {
        Seq::empty()
    } else {
        after_last_colon(s.drop_last()).push(s.last())
    }
}

/// The keyword `Self` cannot name a constant: it becomes `SelfVariant`.
pub open spec fn unreserved(s: Seq<char>) -> Seq<char> {
    if s == "Self"@ {
        "SelfVariant"@
    } else {
        s
    }
}

/// The identifier for an enum variant's name.
pub open spec fn variant_ident(s: Seq<char>, number: nat) -> Seq<char> {
    cleaned(unreserved(after_last_colon(s)), number)
}

/// An identifier as cleaning leaves it.
pub open spec fn is_clean(s: Seq<char>) -> bool {
    &&& forall|i: int| 0 <= i < s.len() ==> is_ident_char(#[trigger] s[i])
    &&& (s.len() == 0 || !is_digit_char(s[0]))
}

proof fn lemma_squash_of_identifier(s: Seq<char>, started: bool)
    requires
        forall|i: int| 0 <= i < s.len() ==> is_ident_char(#[trigger] s[i]),
    ensures
        squash(s, started, false) == s,
    decreases s.len(),
{
    if s.len() > 0 {
        assert(is_ident_char(s[0]));
        let t = s.drop_first();
        assert forall|i: int| 0 <= i < t.len() implies is_ident_char(#[trigger] t[i]) by {
            assert(t[i] == s[i + 1]);
        }
        lemma_squash_of_identifier(t, true);
        assert(seq![s[0]] + t =~= s);
    }
}

proof fn lemma_no_colon(s: Seq<char>)
    requires
        forall|i: int| 0 <= i < s.len() ==> is_ident_char(#[trigger] s[i]),
    ensures
        after_last_colon(s) == s,
    decreases s.len(),
{
    if s.len() > 0 {
        let t = s.drop_last();
        assert(is_ident_char(s[s.len() - 1]));
        assert forall|i: int| 0 <= i < t.len() implies is_ident_char(#[trigger] t[i]) by {
            assert(t[i] == s[i]);
        }
        lemma_no_colon(t);
        assert(t.push(s.last()) =~= s);
    }
}

/// Cleaning leaves a name alone that is already a clean identifier (only
/// identifier characters, no leading digit) and carries no number.
pub proof fn lemma_clean_is_identity(s: Seq<char>)
    requires
        is_clean(s),
    ensures
        cleaned(s, 0) == s,
{
    lemma_squash_of_identifier(s, false);
    assert(s + Seq::<char>::empty() =~= s);
}

/// The same holds of enum variant names, for every clean name but `Self`.
pub proof fn lemma_variant_clean_is_identity(s: Seq<char>)
    requires
        is_clean(s),
        s != "Self"@,
    ensures
        variant_ident(s, 0) == s,
{
    lemma_no_colon(s);
    lemma_clean_is_identity(s);
}

/// A cleaned name and how many invalid segments were replaced in it.
pub struct CleanedName {
    pub text: String,
    pub replaced: usize,
}

fn is_ident(c: char) -> (r: bool)
    ensures
        r == is_ident_char(c),
{
    ('a' <= c && c <= 'z') || ('A' <= c && c <= 'Z') || ('0' <= c && c <= '9') || c == '_'
}

proof fn lemma_squash_step(s: Seq<char>, i: int, started: bool, gap: bool)
    requires
        0 <= i < s.len(),
    ensures
        squash(s.subrange(i, s.len() as int), started, gap) == if is_ident_char(s[i]) {
            (if gap {
                seq!['_', s[i]]
            } else {
                seq![s[i]]
            }) + squash(s.subrange(i + 1, s.len() as int), true, false)
        } else {
            squash(s.subrange(i + 1, s.len() as int), started, started)
        },
        piece_count(s.subrange(i, s.len() as int), started && !gap) == if is_ident_char(s[i]) {
            (if started && !gap {
                0nat
            } else {
                1nat
            }) + piece_count(s.subrange(i + 1, s.len() as int), true)
        } else {
            piece_count(s.subrange(i + 1, s.len() as int), false)
        },
{
    let t = s.subrange(i, s.len() as int);
    assert(t.drop_first() =~= s.subrange(i + 1, s.len() as int));
}

/// Appends the pieces of `v[start..]` joined by single underscores; returns
/// how many pieces there were.
fn push_squashed(out: &mut String, v: &Vec<char>, start: usize) -> (count: usize)
    requires
        start <= v@.len(),
    ensures
        final(out)@ == old(out)@ + squash(v@.subrange(start as int, v@.len() as int), false, false),
        count == piece_count(v@.subrange(start as int, v@.len() as int), false),
{
    let ghost s = v@;
    let n = v.len();
    let mut i: usize = start;
    let mut started = false;
    let mut gap = false;
    let mut count: usize = 0;
    while i < n
        invariant
            s == v@,
            n == s.len(),
            start <= i <= n,
            count <= i - start,
            !started ==> !gap && count == 0,
            started ==> count > 0,
            old(out)@ + squash(s.subrange(start as int, n as int), false, false) == out@ + squash(
                s.subrange(i as int, n as int),
                started,
                gap,
            ),
            piece_count(s.subrange(start as int, n as int), false) == count + piece_count(
                s.subrange(i as int, n as int),
                started && !gap,
            ),
        decreases n - i,
    {
        let c = v[i];
        let ghost before = out@;
        let ghost g0 = gap;
        proof {
            lemma_squash_step(s, i as int, started, gap);
        }
        if is_ident(c) {
            if gap {
                push_char(out, '_');
            }
            if !(started && !gap) {
                count = count + 1;
            }
            push_char(out, c);
            started = true;
            gap = false;
            proof {
                if g0 {
                    assert(out@ =~= before + seq!['_', c]);
                } else {
                    assert(out@ =~= before + seq![c]);
                }
            }
        } else {
            gap = started;
        }
        i = i + 1;
    }
    assert(s.subrange(i as int, n as int) =~= Seq::<char>::empty());
    assert(out@ =~= out@ + squash(s.subrange(i as int, n as int), started, gap));
    count
}

/// Appends the suffix that the host number adds.
fn push_number_suffix(out: &mut String, number: u32)
    ensures
        final(out)@ == old(out)@ + number_suffix(number as nat),
{
    if number > 0 {
        push_char(out, '_');
        push_decimal(out, (number - 1) as u64);
        assert(out@ =~= old(out)@ + number_suffix(number as nat));
    } else {
        assert(out@ =~= old(out)@ + number_suffix(number as nat));
    }
}

/// Appends the cleaned form of `v[start..]` with the suffix of `number`;
/// returns how many invalid segments were replaced.
fn push_cleaned(out: &mut String, v: &Vec<char>, start: usize, number: u32) -> (replaced: usize)
    requires
        start <= v@.len(),
    ensures
        final(out)@ == old(out)@ + cleaned(v@.subrange(start as int, v@.len() as int), number as nat),
        replaced == replaced_count(v@.subrange(start as int, v@.len() as int)),
{
    let ghost s = v@.subrange(start as int, v@.len() as int);
    if start < v.len() && is_digit(v[start]) {
        push_str(out, "Func_");
    }
    let ghost mid = out@;
    let count = push_squashed(out, v, start);
    push_number_suffix(out, number);
    assert(out@ =~= old(out)@ + cleaned(s, number as nat));
    if count > 0 {
        count - 1
    } else {
        0
    }
}

fn is_digit(c: char) -> (r: bool)
    ensures
        r == is_digit_char(c),
{
    '0' <= c && c <= '9'
}

/// Cleans a host name into an identifier: a leading digit gets `Func_` before
/// it, runs of invalid characters become one underscore (none at either end),
/// and a non-zero number `k` adds `_<k-1>`.
pub fn clean_name(name: &HostName) -> (r: CleanedName)
    ensures
        r.text@ == cleaned(name.text@, name.number as nat),
        r.replaced == replaced_count(name.text@),
{
    let v = chars_of(name.text.as_str());
    let mut text = String::new();
    let replaced = push_cleaned(&mut text, &v, 0, name.number);
    assert(v@.subrange(0, v@.len() as int) =~= v@);
    CleanedName { text, replaced }
}

/// The identifier of an enum variant: only what follows the last `:` is kept,
/// `Self` becomes `SelfVariant`, and the result is cleaned as a name.
pub fn variant_name(name: &HostName) -> (r: String)
    ensures
        r@ == variant_ident(name.text@, name.number as nat),
{
    let v = chars_of(name.text.as_str());
    let n = v.len();
    let mut start: usize = n;
    assert(v@.subrange(0, n as int) =~= v@);
    assert(v@ + v@.subrange(n as int, n as int) =~= v@);
    while start > 0 && v[start - 1] != ':'
        invariant
            start <= n,
            n == v@.len(),
            after_last_colon(v@) == after_last_colon(v@.subrange(0, start as int)) + v@.subrange(
                start as int,
                n as int,
            ),
        decreases start,
    {
        let ghost pre = v@.subrange(0, start as int);
        assert(pre.drop_last() =~= v@.subrange(0, start - 1));
        start = start - 1;
        assert(v@.subrange(start as int, n as int) =~= seq![v@[start as int]] + v@.subrange(
            start + 1,
            n as int,
        ));
        assert(after_last_colon(v@) =~= after_last_colon(v@.subrange(0, start as int)) + v@.subrange(
            start as int,
            n as int,
        ));
    }
    let ghost tail = v@.subrange(start as int, n as int);
    assert(after_last_colon(v@) =~= tail) by {
        if start > 0 {
            let pre = v@.subrange(0, start as int);
            assert(pre.last() == ':');
        } else {
            assert(v@.subrange(0, 0) =~= Seq::<char>::empty());
        }
    }
    let mut out = String::new();
    let is_self = n - start == 4 && v[start] == 'S' && v[start + 1] == 'e' && v[start + 2] == 'l'
        && v[start + 3] == 'f';
    proof {
        reveal_strlit("Self");
        if is_self {
            assert(tail =~= "Self"@);
        } else if tail.len() == 4 {
            assert(tail[0] != 'S' || tail[1] != 'e' || tail[2] != 'l' || tail[3] != 'f');
        }
    }
    if is_self {
        let reserved = chars_of("SelfVariant");
        push_cleaned(&mut out, &reserved, 0, name.number);
        assert(reserved@.subrange(0, reserved@.len() as int) =~= reserved@);
    } else {
        push_cleaned(&mut out, &v, start, name.number);
    }
    out
}

} // verus!
