//! Text as sequences of characters.

use vstd::prelude::*;
use vstd::string::*;

verus! {

/// `String::push` puts one character behind those that the string holds.
pub assume_specification[ String::push ](s: &mut String, c: char)
    ensures
        final(s)@ == old(s)@.push(c),
;

/// The characters of `s`, in order.
pub fn chars_of(s: &str) -> (chars: Vec<char>)
    ensures
        chars@ == s@,
{
    let mut chars: Vec<char> = Vec::new();
    for c in it: s.chars()
        invariant
            chars@ == s@.take(it.index()),
            it.seq() == s@,
    {
        chars.push(c);
    }
    assert(s@.take(s@.len() as int) =~= s@);
    chars
}

/// Whether `s` starts with `prefix`.
pub open spec fn starts_with(s: Seq<char>, prefix: Seq<char>) -> bool {
    prefix.len() <= s.len() && s.take(prefix.len() as int) == prefix
}

/// Whether `s` ends with `suffix`.
pub open spec fn ends_with(s: Seq<char>, suffix: Seq<char>) -> bool {
    suffix.len() <= s.len() && s.skip(s.len() - suffix.len()) == suffix
}

/// Whether `part` occurs in `s` at position `at`.
pub open spec fn occurs_at(s: Seq<char>, part: Seq<char>, at: int) -> bool {
    0 <= at && at + part.len() <= s.len() && s.subrange(at, at + part.len()) == part
}

/// Whether `part` occurs somewhere in `s`.
pub open spec fn contains_text(s: Seq<char>, part: Seq<char>) -> bool {
    exists|at: int| occurs_at(s, part, at)
}

/// Whether `part` stands in `s` at `at`; all three within bounds.
fn matches_at(s: &Vec<char>, part: &Vec<char>, at: usize) -> (found: bool)
    requires
        at + part@.len() <= s@.len(),
    ensures
        found == occurs_at(s@, part@, at as int),
{
    let n: usize = s.len();
    let mut i: usize = 0;
    while i < part.len()
        invariant
            i <= part@.len(),
            n == s@.len(),
            at + part@.len() <= n,
            forall|j: int| 0 <= j < i ==> s@[at + j] == part@[j],
        decreases part@.len() - i,
    {
        if s[at + i] != part[i] {
            assert(s@.subrange(at as int, at + part@.len())[i as int] != part@[i as int]);
            return false;
        }
        i = i + 1;
    }
    assert(s@.subrange(at as int, at + part@.len()) =~= part@);
    true
}

/// Whether `s` starts with `prefix`.
pub fn has_prefix(s: &str, prefix: &str) -> (found: bool)
    ensures
        found == starts_with(s@, prefix@),
{
    let all = chars_of(s);
    let part = chars_of(prefix);
    if part.len() > all.len() {
        return false;
    }
    assert(s@.subrange(0, prefix@.len() as int) =~= s@.take(prefix@.len() as int));
    matches_at(&all, &part, 0)
}

/// Whether `s` ends with `suffix`.
pub fn has_suffix(s: &str, suffix: &str) -> (found: bool)
    ensures
        found == ends_with(s@, suffix@),
{
    let all = chars_of(s);
    let part = chars_of(suffix);
    if part.len() > all.len() {
        return false;
    }
    let at: usize = all.len() - part.len();
    assert(s@.subrange(at as int, at + suffix@.len()) =~= s@.skip(at as int));
    matches_at(&all, &part, at)
}

/// Whether `wanted` occurs somewhere in `all`.
pub fn chars_hold(all: &Vec<char>, wanted: &Vec<char>) -> (found: bool)
    ensures
        found == contains_text(all@, wanted@),
{
    if wanted.len() > all.len() {
        return false;
    }
    let last: usize = all.len() - wanted.len();
    let mut at: usize = 0;
    loop
        invariant
            at <= last,
            last == all@.len() - wanted@.len(),
            forall|j: int| 0 <= j < at ==> !occurs_at(all@, wanted@, j),
        decreases last - at,
    {
        if matches_at(all, wanted, at) {
            return true;
        }
        if at == last {
            return false;
        }
        at = at + 1;
    }
}

/// Whether `part` occurs somewhere in `s`.
pub fn has_text(s: &str, part: &str) -> (found: bool)
    ensures
        found == contains_text(s@, part@),
{
    chars_hold(&chars_of(s), &chars_of(part))
}

/// What follows `prefix` in `s`, if `s` starts with it.
pub fn strip_prefix<'a>(s: &'a str, prefix: &str) -> (rest: Option<&'a str>)
    ensures
        rest is Some <==> starts_with(s@, prefix@),
        rest matches Some(r) ==> r@ == s@.skip(prefix@.len() as int),
{
    if has_prefix(s, prefix) {
        let n: usize = s.unicode_len();
        let k: usize = prefix.unicode_len();
        assert(s@.subrange(k as int, n as int) =~= s@.skip(k as int));
        Some(s.substring_char(k, n))
    } else {
        None
    }
}

/// Whether two runs of characters are the same.
pub fn same_chars(a: &Vec<char>, b: &Vec<char>) -> (same: bool)
    ensures
        same == (a@ == b@),
{
    if a.len() != b.len() {
        return false;
    }
    assert(a@.subrange(0, b@.len() as int) =~= a@);
    matches_at(a, b, 0)
}

/// Whether two texts have the same characters.
pub fn same_text(a: &str, b: &str) -> (same: bool)
    ensures
        same == (a@ == b@),
{
    same_chars(&chars_of(a), &chars_of(b))
}

/// The last position up to `from` at which `part` occurs in `s`; -1 if there is none.
pub open spec fn last_occurrence(s: Seq<char>, part: Seq<char>, from: int) -> int
    decreases from + 1,
{
    if from < 0 {
        -1
    } else if occurs_at(s, part, from) {
        from
    } else {
        last_occurrence(s, part, from - 1)
    }
}

/// What follows the last occurrence of `part` in `s`; all of `s` if there is none.
pub open spec fn after_last(s: Seq<char>, part: Seq<char>) -> Seq<char> {
    let at = last_occurrence(s, part, s.len() as int);
    if at < 0 {
        s
    } else {
        s.skip(at + part.len())
    }
}

pub proof fn lemma_last_occurrence(s: Seq<char>, part: Seq<char>, from: int)
    ensures
        -1 <= last_occurrence(s, part, from),
        0 <= last_occurrence(s, part, from) ==> {
            &&& last_occurrence(s, part, from) <= from
            &&& occurs_at(s, part, last_occurrence(s, part, from))
        },
        forall|at: int| last_occurrence(s, part, from) < at <= from ==> !occurs_at(s, part, at),
    decreases from + 1,
{
    if from >= 0 && !occurs_at(s, part, from) {
        lemma_last_occurrence(s, part, from - 1);
    }
}

/// Where `part` occurs last in `s`, counted in characters.
pub fn find_last(s: &str, part: &str) -> (found: Option<usize>)
    ensures
        match found {
            Some(at) => at == last_occurrence(s@, part@, s@.len() as int),
            None => last_occurrence(s@, part@, s@.len() as int) == -1,
        },
{
    let all = chars_of(s);
    let wanted = chars_of(part);
    let mut at: usize = all.len();
    loop
        invariant
            at <= all@.len(),
            all@ == s@,
            wanted@ == part@,
            last_occurrence(s@, part@, s@.len() as int) == last_occurrence(s@, part@, at as int),
        decreases at,
    {
        if wanted.len() <= all.len() - at && matches_at(&all, &wanted, at) {
            return Some(at);
        }
        if at == 0 {
            reveal_with_fuel(last_occurrence, 2);
            return None;
        }
        at = at - 1;
    }
}

/// What follows the last occurrence of `part` in `s`; all of `s` if there is none.
pub fn rest_after_last<'a>(s: &'a str, part: &str) -> (rest: &'a str)
    ensures
        rest@ == after_last(s@, part@),
{
    match find_last(s, part) {
        Some(at) => {
            proof {
                lemma_last_occurrence(s@, part@, s@.len() as int);
            }
            let n: usize = s.unicode_len();
            let k: usize = part.unicode_len();
            let tail = s.substring_char(at + k, n);
            assert(tail@ =~= s@.skip(at + k));
            tail
        },
        None => s,
    }
}

/// The pieces of `s` between the occurrences of `sep`.
pub open spec fn pieces(s: Seq<char>, sep: char) -> Seq<Seq<char>>
    decreases s.len(),
{
    if s.len() == 0 {
        seq![Seq::empty()]
    } else {
        let rest = pieces(s.drop_last(), sep);
        if s.last() == sep {
            rest.push(Seq::empty())
        } else {
            rest.drop_last().push(rest.last().push(s.last()))
        }
    }
}

/// The characters of each list.
pub open spec fn piece_views(parts: Seq<Vec<char>>) -> Seq<Seq<char>> {
    parts.map_values(|p: Vec<char>| p@)
}

/// Splits `s` at every `sep`.
pub fn split(s: &Vec<char>, sep: char) -> (parts: Vec<Vec<char>>)
    ensures
        piece_views(parts@) == pieces(s@, sep),
        parts@.len() > 0,
{
    let mut parts: Vec<Vec<char>> = Vec::new();
    let mut current: Vec<char> = Vec::new();
    let mut i: usize = 0;
    assert(piece_views(parts@).push(current@) =~= pieces(s@.take(0), sep));
    while i < s.len()
        invariant
            i <= s@.len(),
            piece_views(parts@).push(current@) == pieces(s@.take(i as int), sep),
        decreases s@.len() - i,
    {
        let c: char = s[i];
        let ghost before = piece_views(parts@).push(current@);
        proof {
            assert(s@.take(i + 1).drop_last() =~= s@.take(i as int));
            assert(before.drop_last() =~= piece_views(parts@));
        }
        if c == sep {
            let ghost done = piece_views(parts@);
            let ghost last = current@;
            let mut empty: Vec<char> = Vec::new();
            std::mem::swap(&mut current, &mut empty);
            parts.push(empty);
            assert(piece_views(parts@) =~= done.push(last));
            assert(piece_views(parts@).push(current@) =~= before.push(Seq::empty()));
        } else {
            current.push(c);
            assert(piece_views(parts@).push(current@) =~= pieces(s@.take(i + 1), sep));
        }
        i = i + 1;
    }
    let ghost done = piece_views(parts@);
    let ghost last = current@;
    parts.push(current);
    assert(piece_views(parts@) =~= done.push(last));
    assert(s@.take(s@.len() as int) =~= s@);
    parts
}

/// A text without the separator is its own only piece.
pub proof fn lemma_one_piece(s: Seq<char>, sep: char)
    requires
        !s.contains(sep),
    ensures
        pieces(s, sep) == seq![s],
    decreases s.len(),
{
    if s.len() == 0 {
        assert(s =~= Seq::<char>::empty());
    } else {
        assert(!s.drop_last().contains(sep)) by {
            if s.drop_last().contains(sep) {
                let i = s.drop_last().index_of(sep);
                assert(s[i] == sep);
            }
        }
        lemma_one_piece(s.drop_last(), sep);
        assert(s[s.len() - 1] == s.last());
        assert(s.contains(s.last()));
        let rest = pieces(s.drop_last(), sep);
        assert(rest.drop_last() =~= Seq::<Seq<char>>::empty());
        assert(rest.last().push(s.last()) =~= s);
        assert(pieces(s, sep) =~= seq![s]);
    }
}

/// A separator splits off what follows it.
pub proof fn lemma_split_off(a: Seq<char>, sep: char, b: Seq<char>)
    requires
        !b.contains(sep),
    ensures
        pieces(a.push(sep) + b, sep) == pieces(a, sep).push(b),
    decreases b.len(),
{
    let s = a.push(sep) + b;
    if b.len() == 0 {
        assert(s.drop_last() =~= a);
        assert(s.last() == sep);
        assert(b =~= Seq::<char>::empty());
    } else {
        let c = b.drop_last();
        assert(!c.contains(sep)) by {
            if c.contains(sep) {
                assert(b[c.index_of(sep)] == sep);
            }
        }
        lemma_split_off(a, sep, c);
        assert(s.drop_last() =~= a.push(sep) + c);
        assert(s.last() == b.last());
        assert(b[b.len() - 1] == b.last());
        assert(b.contains(b.last()));
        let rest = pieces(a, sep).push(c);
        assert(rest.drop_last() =~= pieces(a, sep));
        assert(c.push(b.last()) =~= b);
        assert(pieces(s, sep) =~= pieces(a, sep).push(b));
    }
}

/// The order of texts: by the first character in which they differ, a prefix first.
pub open spec fn text_less(a: Seq<char>, b: Seq<char>) -> bool
    decreases a.len(),
{
    if b.len() == 0 {
        false
    } else if a.len() == 0 {
        true
    } else if a[0] != b[0] {
        a[0] < b[0]
    } else {
        text_less(a.skip(1), b.skip(1))
    }
}

/// Whether `a` comes before `b`.
pub fn less(a: &str, b: &str) -> (yes: bool)
    ensures
        yes == text_less(a@, b@),
{
    let left = chars_of(a);
    let right = chars_of(b);
    let mut i: usize = 0;
    assert(a@.skip(0) =~= a@ && b@.skip(0) =~= b@);
    while i < left.len() && i < right.len()
        invariant
            i <= left@.len(),
            i <= right@.len(),
            left@ == a@,
            right@ == b@,
            text_less(a@, b@) == text_less(a@.skip(i as int), b@.skip(i as int)),
        decreases left@.len() - i,
    {
        proof {
            assert(a@.skip(i as int).skip(1) =~= a@.skip(i + 1));
            assert(b@.skip(i as int).skip(1) =~= b@.skip(i + 1));
        }
        if left[i] != right[i] {
            return left[i] < right[i];
        }
        i = i + 1;
    }
    left.len() < right.len()
}

/// Of two different texts one comes before the other, and only one.
pub proof fn lemma_less_is_total(a: Seq<char>, b: Seq<char>)
    ensures
        text_less(a, b) || text_less(b, a) || a == b,
        !(text_less(a, b) && text_less(b, a)),
        text_less(a, b) ==> a != b,
    decreases a.len(),
{
    if a.len() > 0 && b.len() > 0 && a[0] == b[0] {
        lemma_less_is_total(a.skip(1), b.skip(1));
        if a.skip(1) == b.skip(1) {
            assert(a =~= seq![a[0]] + a.skip(1));
            assert(b =~= seq![b[0]] + b.skip(1));
        }
    } else if a.len() == 0 && b.len() == 0 {
        assert(a =~= b);
    }
}

/// What comes before a text comes before all that follow it.
pub proof fn lemma_less_is_transitive(a: Seq<char>, b: Seq<char>, c: Seq<char>)
    requires
        text_less(a, b),
        text_less(b, c),
    ensures
        text_less(a, c),
    decreases a.len(),
{
    if a.len() > 0 && a[0] == b[0] && b[0] == c[0] {
        lemma_less_is_transitive(a.skip(1), b.skip(1), c.skip(1));
    }
}

/// `s` with small letters for the capital letters from A to Z.
pub open spec fn lower(s: Seq<char>) -> Seq<char> {
    s.map_values(
        |c: char|
            if 'A' <= c <= 'Z' {
                (c as u32 + 32) as char
            } else {
                c
            },
    )
}

/// The characters of `s`, with small letters for the capital letters from A to Z.
pub fn lower_chars(s: &str) -> (chars: Vec<char>)
    ensures
        chars@ == lower(s@),
{
    let plain = chars_of(s);
    let mut chars: Vec<char> = Vec::new();
    let mut i: usize = 0;
    while i < plain.len()
        invariant
            i <= plain@.len(),
            plain@ == s@,
            chars@ == lower(s@).take(i as int),
        decreases plain@.len() - i,
    {
        let c: char = plain[i];
        let small: char = if 'A' <= c && c <= 'Z' {
            (c as u8 + 32) as char
        } else {
            c
        };
        chars.push(small);
        assert(lower(s@).take(i + 1) =~= lower(s@).take(i as int).push(small));
        i = i + 1;
    }
    assert(lower(s@).take(s@.len() as int) =~= lower(s@));
    chars
}

/// Capital letters become the small ones, and everything else stays; what is small stays small.
pub proof fn lemma_small_letters(s: &str, chars: Vec<char>, i: int)
    requires
        call_ensures(lower_chars, (s,), chars),
        0 <= i < s@.len(),
    ensures
        chars@.len() == s@.len(),
        !('A' <= s@[i] <= 'Z') ==> chars@[i] == s@[i],
        'A' <= s@[i] <= 'Z' ==> chars@[i] as int - 'a' as int == s@[i] as int - 'A' as int,
        !('A' <= chars@[i] <= 'Z'),
{
}

/// Pieces joined again by what they were split at give the text back, and none of them holds it.
pub proof fn lemma_pieces_join(s: Seq<char>, sep: char)
    ensures
        pieces(s, sep).len() > 0,
        joined(pieces(s, sep), sep) == s,
        forall|i: int| 0 <= i < pieces(s, sep).len() ==> !(#[trigger] pieces(s, sep)[i]).contains(sep),
    decreases s.len(),
{
    let all = pieces(s, sep);
    if s.len() == 0 {
        assert(all.drop_last() =~= seq![]);
        assert(joined(all, sep) =~= s);
    } else {
        let rest = pieces(s.drop_last(), sep);
        lemma_pieces_join(s.drop_last(), sep);
        if s.last() == sep {
            assert(all.drop_last() =~= rest);
            assert(joined(all, sep) =~= s);
            assert forall|i: int| 0 <= i < all.len() implies !(#[trigger] all[i]).contains(sep) by {
                if i < rest.len() {
                    assert(all[i] == rest[i]);
                }
            }
        } else {
            let last = rest.last().push(s.last());
            assert(all.drop_last() =~= rest.drop_last());
            assert(joined(all, sep) =~= joined(rest, sep).push(s.last()));
            assert(joined(all, sep) =~= s);
            assert forall|i: int| 0 <= i < all.len() implies !(#[trigger] all[i]).contains(sep) by {
                if i < rest.len() - 1 {
                    assert(all[i] == rest[i]);
                } else {
                    assert(!rest[rest.len() - 1].contains(sep));
                    if last.contains(sep) {
                        let j = last.index_of(sep);
                        if j < rest.last().len() {
                            assert(rest.last()[j] == sep);
                        }
                    }
                }
            }
        }
    }
}

/// Pieces, one after the other, with `sep` between them.
pub open spec fn joined(parts: Seq<Seq<char>>, sep: char) -> Seq<char>
    decreases parts.len(),
{
    if parts.len() == 0 {
        Seq::empty()
    } else if parts.len() == 1 {
        parts[0]
    } else {
        joined(parts.drop_last(), sep).push(sep) + parts.last()
    }
}

/// A text is found where it stands: at the front, at the end or somewhere in between.
pub proof fn lemma_texts_are_found(
    front: Seq<char>,
    part: &str,
    back: Seq<char>,
    whole: &str,
    first: bool,
    last: bool,
    within: bool,
)
    requires
        whole@ == front + part@ + back,
        call_ensures(has_prefix, (whole, part), first),
        call_ensures(has_suffix, (whole, part), last),
        call_ensures(has_text, (whole, part), within),
    ensures
        front.len() == 0 ==> first,
        back.len() == 0 ==> last,
        within,
{
    let s = whole@;
    let at = front.len() as int;
    assert(s.subrange(at, at + part@.len()) =~= part@);
    assert(occurs_at(s, part@, at));
    if front.len() == 0 {
        assert(s.take(part@.len() as int) =~= part@);
    }
    if back.len() == 0 {
        assert(s.skip(s.len() - part@.len()) =~= part@);
    }
}

/// What is found stands there.
pub proof fn lemma_found_texts_stand_there(
    part: &str,
    whole: &str,
    first: bool,
    last: bool,
    within: bool,
)
    requires
        call_ensures(has_prefix, (whole, part), first),
        call_ensures(has_suffix, (whole, part), last),
        call_ensures(has_text, (whole, part), within),
    ensures
        first ==> exists|back: Seq<char>| whole@ == #[trigger] (part@ + back),
        last ==> exists|front: Seq<char>| whole@ == #[trigger] (front + part@),
        within ==> exists|front: Seq<char>, back: Seq<char>| whole@ == #[trigger] (front + part@
            + back),
{
    let s = whole@;
    let n = part@.len() as int;
    if first {
        assert(s =~= part@ + s.skip(n));
    }
    if last {
        assert(s =~= s.take(s.len() - n) + part@);
    }
    if within {
        let at = choose|at: int| occurs_at(s, part@, at);
        assert(s =~= s.take(at) + part@ + s.skip(at + n));
    }
}

/// Of two texts the one with the smaller character comes first where they part, and the one that is
/// the start of the other comes before it.
pub proof fn lemma_texts_stand_in_order(a: &str, b: &str, k: int, yes: bool)
    requires
        call_ensures(less, (a, b), yes),
        0 <= k <= a@.len(),
        k <= b@.len(),
        a@.take(k) == b@.take(k),
    ensures
        k < a@.len() && k < b@.len() && a@[k] != b@[k] ==> (yes <==> a@[k] < b@[k]),
        k == a@.len() && k < b@.len() ==> yes,
        k == b@.len() ==> !yes,
{
    lemma_less_after_prefix(a@, b@, k);
}

proof fn lemma_less_after_prefix(a: Seq<char>, b: Seq<char>, k: int)
    requires
        0 <= k <= a.len(),
        k <= b.len(),
        a.take(k) == b.take(k),
    ensures
        text_less(a, b) == text_less(a.skip(k), b.skip(k)),
        k < a.len() && k < b.len() && a[k] != b[k] ==> (text_less(a, b) <==> a[k] < b[k]),
        k == a.len() && k < b.len() ==> text_less(a, b),
        k == b.len() ==> !text_less(a, b),
    decreases k,
{
    if k == 0 {
        assert(a.skip(0) =~= a && b.skip(0) =~= b);
    } else {
        let c = a.skip(1);
        let d = b.skip(1);
        assert(a[0] == a.take(k)[0] && b[0] == b.take(k)[0]);
        let before = c.take(k - 1);
        let alike = d.take(k - 1);
        assert forall|i: int| 0 <= i < k - 1 implies #[trigger] before[i] == alike[i] by {
            assert(before[i] == a[i + 1] && alike[i] == b[i + 1]);
            assert(a.take(k)[i + 1] == a[i + 1] && b.take(k)[i + 1] == b[i + 1]);
        }
        assert(before =~= alike);
        lemma_less_after_prefix(c, d, k - 1);
        assert(c.skip(k - 1) =~= a.skip(k));
        assert(d.skip(k - 1) =~= b.skip(k));
    }
}

/// A text is found where it occurs last, and what is behind it there is the rest; where it does not
/// occur, all of the text is.
pub proof fn lemma_the_last_occurrence_is_found(
    s: &str,
    part: &str,
    found: Option<usize>,
    rest: &str,
    at: int,
)
    requires
        call_ensures(find_last, (s, part), found),
        call_ensures(rest_after_last, (s, part), rest),
    ensures
        found matches Some(k) ==> {
            &&& k + part@.len() <= s@.len()
            &&& s@.take(k as int) + part@ + rest@ == s@
            &&& k < at && at + part@.len() <= s@.len() ==> s@.subrange(at, at + part@.len()) != part@
        },
        found is None ==> rest@ == s@,
        found is None && 0 <= at && at + part@.len() <= s@.len() ==> s@.subrange(
            at,
            at + part@.len(),
        ) != part@,
{
    lemma_last_occurrence(s@, part@, s@.len() as int);
    if found is Some {
        let k = found->0 as int;
        assert(occurs_at(s@, part@, k));
        let whole = s@.take(k) + s@.subrange(k, k + part@.len()) + s@.skip(k + part@.len());
        assert(whole =~= s@);
    }
    if 0 <= at && at + part@.len() <= s@.len() && s@.subrange(at, at + part@.len()) == part@ {
        assert(occurs_at(s@, part@, at));
    }
}

/// A prefix is taken off just the texts that begin with it: put back in front, it gives the text.
pub proof fn lemma_prefixes_are_taken_off(s: &str, prefix: &str, rest: Option<&str>, tail: Seq<char>)
    requires
        call_ensures(strip_prefix, (s, prefix), rest),
    ensures
        rest matches Some(r) ==> prefix@ + r@ == s@,
        s@ == prefix@ + tail ==> rest is Some && rest->0@ == tail,
{
    if rest is Some {
        let n = prefix@.len() as int;
        assert(s@.take(n) + s@.skip(n) =~= s@);
    }
    if s@ == prefix@ + tail {
        assert(s@.take(prefix@.len() as int) =~= prefix@);
        assert(s@.skip(prefix@.len() as int) =~= tail);
    }
}

} // verus!
