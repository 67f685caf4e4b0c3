//! What texts denote: words and pieces, numbers, durations, sizes and paths.

use crate::config;
use crate::decimal;
use crate::http;
use crate::json;
use crate::text;
use vstd::arithmetic::power::pow;
use vstd::prelude::*;

verus! {

/// Two texts stand in the order of the first characters in which they differ; one that the
/// other goes on from stands in front of it.
pub proof fn first_difference_decides(a: Seq<char>, b: Seq<char>, k: int)
    requires
        0 <= k <= a.len(),
        k <= b.len(),
        forall|i: int| 0 <= i < k ==> #[trigger] a[i] == b[i],
    ensures
        k < a.len() && k < b.len() && a[k] != b[k] ==> text::text_less(a, b) == ((a[k] as u32) < (
        b[k] as u32)),
        k == a.len() && k < b.len() ==> text::text_less(a, b),
        k == b.len() ==> !text::text_less(a, b),
    decreases k,
{
    if k > 0 {
        assert(a[0] == b[0]);
        let x = a.drop_first();
        let y = b.drop_first();
        assert forall|i: int| 0 <= i < k - 1 implies #[trigger] x[i] == y[i] by {
            assert(x[i] == a[i + 1] && y[i] == b[i + 1]);
        }
        first_difference_decides(x, y, k - 1);
    }
}

/// Sorting pairs leaves those of one first text in their order.
pub proof fn pairs_of_one_name_keep_their_order(
    pairs: Seq<(Seq<char>, Seq<char>)>,
    name: Seq<char>,
)
    ensures
        text::sorted_pairs(pairs).filter(|p: (Seq<char>, Seq<char>)| p.0 == name) == pairs.filter(
            |p: (Seq<char>, Seq<char>)| p.0 == name,
        ),
    decreases pairs.len(),
{
    reveal(Seq::filter);
    let own = |p: (Seq<char>, Seq<char>)| p.0 == name;
    if pairs.len() > 0 {
        let front = pairs.drop_last();
        pairs_of_one_name_keep_their_order(front, name);
        text::sorting_orders_the_pairs(front);
        lemma_insert_filtered(text::sorted_pairs(front), pairs.last(), name);
    } else {
        assert(text::sorted_pairs(pairs) =~= pairs);
    }
}

proof fn lemma_insert_filtered(
    pairs: Seq<(Seq<char>, Seq<char>)>,
    pair: (Seq<char>, Seq<char>),
    name: Seq<char>,
)
    ensures
        text::insert_pair(pairs, pair).filter(|p: (Seq<char>, Seq<char>)| p.0 == name) == (
        if pair.0 == name {
            pairs.filter(|p: (Seq<char>, Seq<char>)| p.0 == name).push(pair)
        } else {
            pairs.filter(|p: (Seq<char>, Seq<char>)| p.0 == name)
        }),
    decreases pairs.len(),
{
    reveal(Seq::filter);
    let own = |p: (Seq<char>, Seq<char>)| p.0 == name;
    let after = text::insert_pair(pairs, pair);
    if pairs.len() == 0 || !text::text_less(pair.0, pairs.last().0) {
        assert(after.drop_last() =~= pairs);
    } else {
        let front = pairs.drop_last();
        lemma_insert_filtered(front, pair, name);
        assert(after.drop_last() =~= text::insert_pair(front, pair));
        text::lemma_text_order(pair.0, pairs.last().0);
        assert(pair.0 != pairs.last().0);
        if pair.0 == name {
            assert(!own(pairs.last()));
        }
    }
}

/// Among the characters of ASCII, white space is the space and the five from the tab on.
pub proof fn ascii_space(c: char)
    requires
        (c as u32) < 0x80,
    ensures
        text::is_space(c) <==> c == ' ' || '\t' <= c <= '\r',
{
    reveal(text::is_space);
}

/// Whether a text is nothing but white space.
pub open spec fn is_blank(s: Seq<char>) -> bool {
    forall|i: int| 0 <= i < s.len() ==> text::is_space(#[trigger] s[i])
}

/// Trimming takes white space from the two ends and nothing else, and leaves none there.
pub proof fn trimming_takes_white_space(s: Seq<char>)
    ensures
        exists|front: Seq<char>, back: Seq<char>|
            is_blank(front) && is_blank(back) && #[trigger] (front + text::trimmed(s) + back) == s,
        text::trimmed(s).len() > 0 ==> !text::is_space(text::trimmed(s)[0]) && !text::is_space(
            text::trimmed(s).last(),
        ),
    decreases s.len(),
{
    let t = text::trimmed(s);
    let none = Seq::<char>::empty();
    if s.len() == 0 {
        assert(none + t + none =~= s);
    } else if text::is_space(s[0]) {
        let rest = s.drop_first();
        trimming_takes_white_space(rest);
        let (front, back) = choose|front: Seq<char>, back: Seq<char>|
            is_blank(front) && is_blank(back) && #[trigger] (front + text::trimmed(rest) + back)
                == rest;
        let more = seq![s[0]] + front;
        assert(is_blank(more)) by {
            assert forall|i: int| 0 <= i < more.len() implies text::is_space(
                #[trigger] more[i],
            ) by {
                if i > 0 {
                    assert(more[i] == front[i - 1]);
                }
            }
        }
        assert(more + t + back =~= seq![s[0]] + rest);
        assert(seq![s[0]] + rest =~= s);
    } else if text::is_space(s.last()) {
        let rest = s.drop_last();
        trimming_takes_white_space(rest);
        let (front, back) = choose|front: Seq<char>, back: Seq<char>|
            is_blank(front) && is_blank(back) && #[trigger] (front + text::trimmed(rest) + back)
                == rest;
        let more = back.push(s.last());
        assert(is_blank(more)) by {
            assert forall|i: int| 0 <= i < more.len() implies text::is_space(
                #[trigger] more[i],
            ) by {
                if i < back.len() {
                    assert(more[i] == back[i]);
                }
            }
        }
        assert(front + t + more =~= rest.push(s.last()));
        assert(rest.push(s.last()) =~= s);
    } else {
        assert(none + t + none =~= s);
    }
}

/// Whether a text is nothing but one character.
pub open spec fn is_run(s: Seq<char>, c: char) -> bool {
    forall|i: int| 0 <= i < s.len() ==> #[trigger] s[i] == c
}

/// Trimming an end of a character takes all of it there, and nothing else.
pub proof fn trimming_takes_one_character(s: Seq<char>, c: char)
    ensures
        text::trimmed_end(s, c).is_prefix_of(s),
        is_run(s.skip(text::trimmed_end(s, c).len() as int), c),
        text::trimmed_end(s, c).len() > 0 ==> text::trimmed_end(s, c).last() != c,
        text::trimmed_start(s, c).is_suffix_of(s),
        is_run(s.take(s.len() - text::trimmed_start(s, c).len()), c),
        text::trimmed_start(s, c).len() > 0 ==> text::trimmed_start(s, c)[0] != c,
    decreases s.len(),
{
    lemma_trimmed_end(s, c);
    lemma_trimmed_start(s, c);
}

proof fn lemma_trimmed_end(s: Seq<char>, c: char)
    ensures
        text::trimmed_end(s, c).is_prefix_of(s),
        is_run(s.skip(text::trimmed_end(s, c).len() as int), c),
        text::trimmed_end(s, c).len() > 0 ==> text::trimmed_end(s, c).last() != c,
    decreases s.len(),
{
    let t = text::trimmed_end(s, c);
    if s.len() > 0 && s.last() == c {
        let rest = s.drop_last();
        lemma_trimmed_end(rest, c);
        let tail = s.skip(t.len() as int);
        assert forall|i: int| 0 <= i < tail.len() implies #[trigger] tail[i] == c by {
            if i < tail.len() - 1 {
                assert(rest.skip(t.len() as int)[i] == tail[i]);
            }
        }
    }
}

proof fn lemma_trimmed_start(s: Seq<char>, c: char)
    ensures
        text::trimmed_start(s, c).is_suffix_of(s),
        is_run(s.take(s.len() - text::trimmed_start(s, c).len()), c),
        text::trimmed_start(s, c).len() > 0 ==> text::trimmed_start(s, c)[0] != c,
    decreases s.len(),
{
    let t = text::trimmed_start(s, c);
    if s.len() > 0 && s[0] == c {
        let rest = s.drop_first();
        lemma_trimmed_start(rest, c);
        let head = s.take(s.len() - t.len());
        assert forall|i: int| 0 <= i < head.len() implies #[trigger] head[i] == c by {
            if i > 0 {
                assert(rest.take(rest.len() - t.len())[i - 1] == head[i]);
            }
        }
        assert(s.subrange(s.len() - t.len(), s.len() as int) =~= rest.subrange(
            rest.len() - t.len(),
            rest.len() as int,
        ));
    } else {
        assert(s.subrange(0, s.len() as int) =~= s);
    }
}

/// The words of a text: those in front of a character of white space, then those behind it;
/// a text without white space is one word, and an empty one has none.
pub proof fn white_space_parts_words(a: Seq<char>, space: char, b: Seq<char>)
    requires
        text::is_space(space),
    ensures
        text::words(a.push(space) + b) == text::words(a) + text::words(b),
        a.len() > 0 && (forall|i: int| 0 <= i < a.len() ==> !text::is_space(#[trigger] a[i]))
            ==> text::words(a) == seq![a],
        text::words(Seq::empty()) == Seq::<Seq<char>>::empty(),
    decreases b.len(),
{
    let all = a.push(space) + b;
    if b.len() == 0 {
        assert(all.drop_last() =~= a);
        assert(text::words(a) + text::words(b) =~= text::words(a));
    } else {
        let front = b.drop_last();
        white_space_parts_words(a, space, front);
        assert(all.drop_last() =~= a.push(space) + front);
        assert(all.last() == b.last());
        let before = text::words(a) + text::words(front);
        if text::is_space(b.last()) {
        } else if b.len() == 1 {
            assert(all[all.len() - 2] == space);
            assert(front =~= Seq::<char>::empty());
            assert(text::words(b) =~= seq![seq![b.last()]]);
            assert(before.push(seq![b.last()]) =~= text::words(a) + text::words(b));
        } else {
            assert(all[all.len() - 2] == b[b.len() - 2]);
            if text::is_space(b[b.len() - 2]) {
                assert(before.push(seq![b.last()]) =~= text::words(a) + text::words(b));
            } else {
                lemma_word_ends(front);
                assert(before.last() == text::words(front).last());
                assert(before.drop_last() =~= text::words(a) + text::words(front).drop_last());
                assert(before.drop_last().push(before.last().push(b.last())) =~= text::words(a)
                    + text::words(b));
            }
        }
    }
    if a.len() > 0 && (forall|i: int| 0 <= i < a.len() ==> !text::is_space(#[trigger] a[i])) {
        lemma_one_word(a);
    }
}

proof fn lemma_word_ends(s: Seq<char>)
    requires
        s.len() > 0,
        !text::is_space(s.last()),
    ensures
        text::words(s).len() > 0,
    decreases s.len(),
{
    if s.len() > 1 && !text::is_space(s[s.len() - 2]) {
        lemma_word_ends(s.drop_last());
    }
}

proof fn lemma_one_word(a: Seq<char>)
    requires
        a.len() > 0,
        forall|i: int| 0 <= i < a.len() ==> !text::is_space(#[trigger] a[i]),
    ensures
        text::words(a) == seq![a],
    decreases a.len(),
{
    let front = a.drop_last();
    assert(!text::is_space(a[a.len() - 1]));
    if a.len() == 1 {
        assert(front =~= Seq::<char>::empty());
        assert(text::words(front) =~= Seq::<Seq<char>>::empty());
        assert(text::words(a) =~= text::words(front).push(seq![a.last()]));
        assert(seq![a.last()] =~= a);
    } else {
        assert forall|i: int| 0 <= i < front.len() implies !text::is_space(#[trigger] front[i]) by {
            assert(front[i] == a[i]);
        }
        assert(!text::is_space(a[a.len() - 2]));
        lemma_one_word(front);
        assert(front.push(a.last()) =~= a);
        assert(text::words(a) =~= seq![a]);
    }
}

/// The pieces of a text: those in front of a separator, then those behind it; a text without
/// a separator is one piece.
pub proof fn separators_part_pieces(a: Seq<char>, sep: char, b: Seq<char>)
    ensures
        text::pieces(a.push(sep) + b, sep) == text::pieces(a, sep) + text::pieces(b, sep),
        !a.contains(sep) ==> text::pieces(a, sep) == seq![a],
    decreases b.len(),
{
    let all = a.push(sep) + b;
    if b.len() == 0 {
        assert(all.drop_last() =~= a);
        assert(b =~= Seq::<char>::empty());
        assert(text::pieces(a, sep).push(Seq::empty()) =~= text::pieces(a, sep) + text::pieces(
            b,
            sep,
        ));
    } else {
        let front = b.drop_last();
        separators_part_pieces(a, sep, front);
        lemma_pieces_some(front, sep);
        assert(all.drop_last() =~= a.push(sep) + front);
        assert(all.last() == b.last());
        let before = text::pieces(a, sep) + text::pieces(front, sep);
        if b.last() == sep {
            assert(before.push(Seq::empty()) =~= text::pieces(a, sep) + text::pieces(b, sep));
        } else {
            assert(before.last() == text::pieces(front, sep).last());
            assert(before.drop_last().push(before.last().push(b.last())) =~= text::pieces(a, sep)
                + text::pieces(b, sep));
        }
    }
    if !a.contains(sep) {
        lemma_one_piece(a, sep);
    }
}

proof fn lemma_pieces_some(s: Seq<char>, sep: char)
    ensures
        text::pieces(s, sep).len() > 0,
    decreases s.len(),
{
    if s.len() > 0 {
        lemma_pieces_some(s.drop_last(), sep);
    }
}

proof fn lemma_one_piece(a: Seq<char>, sep: char)
    requires
        !a.contains(sep),
    ensures
        text::pieces(a, sep) == seq![a],
    decreases a.len(),
{
    if a.len() > 0 {
        let front = a.drop_last();
        assert(a[a.len() - 1] == a.last());
        assert(!front.contains(sep)) by {
            if front.contains(sep) {
                let i = choose|i: int| 0 <= i < front.len() && front[i] == sep;
                assert(a[i] == sep);
            }
        }
        lemma_one_piece(front, sep);
        assert(front.push(a.last()) =~= a);
        assert(text::pieces(a, sep) =~= seq![a]);
    } else {
        assert(a =~= Seq::<char>::empty());
    }
}

/// The path of a name in a directory is the directory, then the name, with one slash between
/// them where the directory does not end in one. A name that begins with a slash is a path of
/// its own.
pub proof fn paths_lead_into_their_directory(dir: Seq<char>, name: Seq<char>)
    ensures
        name.len() > 0 && name[0] == '/' ==> text::path_in(dir, name) == name,
        name.len() == 0 || name[0] != '/' ==> dir.is_prefix_of(text::path_in(dir, name))
            && name.is_suffix_of(text::path_in(dir, name)) && (text::path_in(dir, name).len()
            == dir.len() + name.len() <==> dir.len() == 0 || dir.last() == '/') && (text::path_in(
            dir,
            name,
        ).len() != dir.len() + name.len() ==> text::path_in(dir, name).len() == dir.len()
            + name.len() + 1 && text::path_in(dir, name)[dir.len() as int] == '/'),
{
    let p = text::path_in(dir, name);
    if name.len() == 0 || name[0] != '/' {
        assert(p.subrange(p.len() - name.len(), p.len() as int) =~= name);
        assert(p.subrange(0, dir.len() as int) =~= dir);
    }
}

/// Names without slashes in one directory have different paths.
pub proof fn names_have_their_own_paths(dir: Seq<char>, a: Seq<char>, b: Seq<char>)
    requires
        !a.contains('/'),
        !b.contains('/'),
        text::path_in(dir, a) == text::path_in(dir, b),
    ensures
        a == b,
{
    if a.len() > 0 {
        assert(a.contains(a[0]));
    }
    if b.len() > 0 {
        assert(b.contains(b[0]));
    }
    let p = text::path_in(dir, a);
    paths_lead_into_their_directory(dir, a);
    paths_lead_into_their_directory(dir, b);
    assert(a.len() == b.len());
    assert(p.subrange(p.len() - a.len(), p.len() as int) =~= a);
    assert(p.subrange(p.len() - b.len(), p.len() as int) =~= b);
}

/// Directories of different names, without slashes, share no path of a name without slashes.
pub proof fn directories_have_their_own_paths(
    dir: Seq<char>,
    a: Seq<char>,
    b: Seq<char>,
    x: Seq<char>,
    y: Seq<char>,
)
    requires
        a.len() > 0 && !a.contains('/'),
        b.len() > 0 && !b.contains('/'),
        !x.contains('/'),
        !y.contains('/'),
        text::path_in(text::path_in(dir, a), x) == text::path_in(text::path_in(dir, b), y),
    ensures
        a == b,
        x == y,
{
    assert(a.contains(a[0]) && a.contains(a.last()));
    assert(b.contains(b[0]) && b.contains(b.last()));
    if x.len() > 0 {
        assert(x.contains(x[0]));
    }
    if y.len() > 0 {
        assert(y.contains(y[0]));
    }
    let da = text::path_in(dir, a);
    let db = text::path_in(dir, b);
    assert(da.last() == a.last() && db.last() == b.last());
    let p = text::path_in(da, x);
    assert(p == da + seq!['/'] + x);
    assert(p == db + seq!['/'] + y);
    if x.len() < y.len() {
        assert(p[p.len() - x.len() - 1] == '/');
        assert(p[p.len() - x.len() - 1] == y[y.len() - x.len() - 1]);
        assert(y.contains(y[y.len() - x.len() - 1]));
    }
    if y.len() < x.len() {
        assert(p[p.len() - y.len() - 1] == '/');
        assert(p[p.len() - y.len() - 1] == x[x.len() - y.len() - 1]);
        assert(x.contains(x[x.len() - y.len() - 1]));
    }
    assert(p.subrange(p.len() - x.len(), p.len() as int) =~= x);
    assert(p.subrange(p.len() - y.len(), p.len() as int) =~= y);
    assert(p.subrange(0, da.len() as int) =~= da);
    assert(p.subrange(0, db.len() as int) =~= db);
    names_have_their_own_paths(dir, a, b);
}

/// A run of digits denotes its number in the scale of ten: one digit denotes itself, and one
/// run behind another counts below it.
pub proof fn digits_count_by_tens(a: Seq<char>, b: Seq<char>, c: char)
    requires
        decimal::is_digit(c),
    ensures
        decimal::digits_value(Seq::empty()) == 0,
        decimal::digits_value(seq![c]) == c as u32 - '0' as u32,
        (forall|i: int| 0 <= i < b.len() ==> decimal::is_digit(#[trigger] b[i]))
            ==> decimal::digits_value(a + b) == decimal::digits_value(a) * pow(10, b.len())
            + decimal::digits_value(b),
    decreases b.len(),
{
    reveal_with_fuel(decimal::digits_value, 2);
    assert(seq![c].drop_last() =~= Seq::<char>::empty());
    vstd::arithmetic::power::lemma_pow0(10);
    if b.len() == 0 {
        assert(a + b =~= a);
    } else if forall|i: int| 0 <= i < b.len() ==> decimal::is_digit(#[trigger] b[i]) {
        let front = b.drop_last();
        assert forall|i: int| 0 <= i < front.len() implies decimal::is_digit(#[trigger] front[i]) by {
            assert(front[i] == b[i]);
        }
        assert(decimal::is_digit(b[b.len() - 1]));
        digits_count_by_tens(a, front, c);
        assert((a + b).drop_last() =~= a + front);
        assert((a + b).last() == b.last());
        let x = decimal::digits_value(a) as int;
        let y = decimal::digits_value(front) as int;
        let p = pow(10, front.len());
        vstd::arithmetic::power::lemma_pow1(10);
        vstd::arithmetic::power::lemma_pow_adds(10, front.len(), 1);
        assert(pow(10, b.len()) == p * 10);
        assert((x * p + y) * 10 == x * (p * 10) + y * 10) by (nonlinear_arith);
    }
}

/// A text is an unsigned number where it is a run of digits, with or without a plus sign in
/// front, and the number is not above the greatest; it denotes the number of the digits.
pub proof fn unsigned_numbers_are_read(s: Seq<char>, max: nat)
    ensures
        decimal::is_digits(s) ==> decimal::unsigned_value(s, max) == (if decimal::digits_value(s)
            <= max {
            Some(decimal::digits_value(s))
        } else {
            None
        }),
        decimal::unsigned_value(seq!['+'] + s, max) == (if decimal::is_digits(s)
            && decimal::digits_value(s) <= max {
            Some(decimal::digits_value(s))
        } else {
            None
        }),
        !decimal::is_digits(s) && !(s.len() > 0 && s[0] == '+') ==> decimal::unsigned_value(s, max)
            is None,
{
    assert((seq!['+'] + s).drop_first() =~= s);
    if decimal::is_digits(s) {
        assert(decimal::is_digit(s[0]));
    }
}

/// A text is a signed number of 64 bits where it is a run of digits, with or without a sign
/// in front, and the number fits; a minus sign makes it negative.
pub proof fn signed_numbers_are_read(s: Seq<char>)
    ensures
        decimal::is_digits(s) ==> decimal::signed_value(s) == (if decimal::digits_value(s)
            <= i64::MAX {
            Some(decimal::digits_value(s) as int)
        } else {
            None
        }),
        decimal::signed_value(seq!['+'] + s) == (if decimal::is_digits(s) && decimal::digits_value(
            s,
        ) <= i64::MAX {
            Some(decimal::digits_value(s) as int)
        } else {
            None
        }),
        decimal::signed_value(seq!['-'] + s) == (if decimal::is_digits(s) && decimal::digits_value(
            s,
        ) <= i64::MAX + 1 {
            Some(-decimal::digits_value(s))
        } else {
            None
        }),
        !decimal::is_digits(s) && !(s.len() > 0 && (s[0] == '+' || s[0] == '-'))
            ==> decimal::signed_value(s) is None,
{
    unsigned_numbers_are_read(s, i64::MAX as nat);
    assert((seq!['-'] + s).drop_first() =~= s);
    assert((seq!['+'] + s)[0] == '+');
    if decimal::is_digits(s) {
        assert(decimal::is_digit(s[0]));
    }
}

/// A number is written in digits, without a zero in front; a negative one behind a minus sign.
pub proof fn numbers_are_written_plainly(n: nat)
    ensures
        decimal::is_digits(decimal::numeral(n)),
        decimal::digits_value(decimal::numeral(n)) == n,
        decimal::numeral(n).len() > 1 ==> decimal::numeral(n)[0] != '0',
        decimal::signed_numeral(n as int) == decimal::numeral(n),
        n > 0 ==> decimal::signed_numeral(-(n as int)) == seq!['-'] + decimal::numeral(n),
{
    decimal::lemma_numeral_value(n);
    lemma_no_zero_in_front(n);
}

proof fn lemma_no_zero_in_front(n: nat)
    ensures
        n > 0 ==> decimal::numeral(n)[0] != '0',
        decimal::numeral(n).len() > 0,
    decreases n,
{
    if n >= 10 {
        lemma_no_zero_in_front(n / 10);
        assert(decimal::numeral(n)[0] == decimal::numeral(n / 10)[0]);
    } else if n > 0 {
        decimal::lemma_numeral_value(n);
        digits_count_by_tens(Seq::empty(), Seq::empty(), decimal::numeral(n)[0]);
        assert(decimal::numeral(n) =~= seq![decimal::numeral(n)[0]]);
    }
}

/// A duration is a number of minutes or of seconds, with its unit directly behind it.
pub proof fn durations_are_read(number: Seq<char>, unit: char)
    ensures
        config::duration_value(Seq::empty()) is None,
        config::duration_value(number.push(unit)) == (match decimal::signed_value(number) {
            Some(n) => if unit == 'm' {
                Some(60 * n)
            } else if unit == 's' {
                Some(n)
            } else {
                None
            },
            None => None,
        }),
{
    assert(number.push(unit).drop_last() =~= number);
}

/// White space around a duration does not count; a text that is no duration stands for ten
/// minutes.
pub proof fn durations_are_trimmed(s: Seq<char>)
    ensures
        config::duration_value(text::trimmed(s)) is Some ==> config::duration_secs(s)
            == config::duration_value(text::trimmed(s))->0,
        config::duration_value(text::trimmed(s)) is None ==> config::duration_secs(s) == 10 * 60,
{
}

/// A size is a number of megabytes or of gigabytes, with its unit directly behind it, in
/// letters of either case.
pub proof fn sizes_are_read(number: Seq<char>, x: char, y: char)
    ensures
        config::bytes_value(number.push(x).push(y)) == (match decimal::unsigned_value(
            number,
            usize::MAX as nat,
        ) {
            Some(n) => if (y == 'b' || y == 'B') && (x == 'm' || x == 'M') {
                Some((n * 1_048_576) as nat)
            } else if (y == 'b' || y == 'B') && (x == 'g' || x == 'G') {
                Some((n * 1_073_741_824) as nat)
            } else {
                None
            },
            None => None,
        }),
        forall|t: Seq<char>| t.len() < 2 ==> #[trigger] config::bytes_value(t) is None,
{
    let t = number.push(x).push(y);
    assert(t.take(t.len() - 2) =~= number);
}

/// White space around a size does not count; a text that is no size stands for half a
/// gigabyte, and for one where it ends in the unit of gigabytes.
pub proof fn sizes_are_trimmed(s: Seq<char>)
    ensures
        ({
            let t = text::trimmed(s);
            &&& config::bytes_value(t) is Some ==> config::size_bytes(s) == config::bytes_value(
                t,
            )->0
            &&& config::bytes_value(t) is None ==> config::size_bytes(s) == (if t.len() >= 2 && (
            t.last() == 'b' || t.last() == 'B') && (t[t.len() - 2] == 'g' || t[t.len() - 2] == 'G') {
                1_073_741_824
            } else {
                536_870_912nat
            })
        }),
{
}

/// The value of a name is that of the first pair that has the name.
pub proof fn first_pair_counts(pairs: Seq<(Seq<char>, Seq<char>)>, name: Seq<char>, i: int)
    requires
        0 <= i <= pairs.len(),
        forall|k: int| 0 <= k < i ==> (#[trigger] pairs[k]).0 != name,
        i < pairs.len() ==> pairs[i].0 == name,
    ensures
        i < pairs.len() ==> http::first_value(pairs, name) == Some(pairs[i].1),
        i == pairs.len() ==> http::first_value(pairs, name) is None,
    decreases pairs.len(),
{
    if i > 0 {
        let rest = pairs.drop_first();
        assert(pairs[0].0 != name);
        assert forall|k: int| 0 <= k < i - 1 implies (#[trigger] rest[k]).0 != name by {
            assert(rest[k] == pairs[k + 1]);
        }
        if i < pairs.len() {
            assert(rest[i - 1] == pairs[i]);
        }
        first_pair_counts(rest, name, i - 1);
    }
}

/// A request declares the length that its header is the number of, and none otherwise.
pub proof fn lengths_are_declared(header: Seq<char>)
    ensures
        http::declared_length(None) == 0,
        match decimal::unsigned_value(header, usize::MAX as nat) {
            Some(n) => http::declared_length(Some(header)) == n,
            None => http::declared_length(Some(header)) == 0,
        },
{
}

/// A member is found where the document is an object that has it, and nowhere else.
pub proof fn members_are_found(j: json::Json, key: Seq<char>, inner: Seq<char>)
    ensures
        match json::member(j, key) {
            Some(m) => j is Object && j->Object_0.contains_key(key) && j->Object_0[key] == m
                && json::member_of_member(j, key, inner) == json::member(m, inner),
            None => !(j is Object && j->Object_0.contains_key(key)) && json::member_of_member(
                j,
                key,
                inner,
            ) is None,
        },
        json::member(j, key) matches Some(json::Json::Text(s)) ==> json::text_member(
            Some(j),
            key,
            inner,
        ) == s,
        !(json::member(j, key) matches Some(json::Json::Text(_))) ==> json::text_member(
            Some(j),
            key,
            inner,
        ) == inner,
        json::text_member(None, key, inner) == inner,
        json::member(j, key) matches Some(json::Json::Number(Some(n))) ==> json::natural_member(
            Some(j),
            key,
        ) == n,
        !(json::member(j, key) matches Some(json::Json::Number(Some(_)))) ==> json::natural_member(
            Some(j),
            key,
        ) == 0,
        json::member(j, key) matches Some(json::Json::Array(items)) ==> json::items_of(j, key)
            == items,
        !(json::member(j, key) matches Some(json::Json::Array(_))) ==> json::items_of(j, key).len()
            == 0,
{
}

/// The texts of an array are all read, and the pairs of texts; what is something else is left
/// out.
pub proof fn items_are_read(items: Seq<json::Json>)
    ensures
        json::texts(items) == items.filter(|i: json::Json| i is Text).map_values(
            |i: json::Json| i->Text_0,
        ),
        json::text_pairs(items) == items.filter(|i: json::Json| is_pair(i)).map_values(
            |i: json::Json| (i->Array_0[0]->Text_0, i->Array_0[1]->Text_0),
        ),
    decreases items.len(),
{
    reveal(Seq::filter);
    let is_text = |i: json::Json| i is Text;
    let text_of = |i: json::Json| i->Text_0;
    let pair = |i: json::Json| is_pair(i);
    let pair_of = |i: json::Json| (i->Array_0[0]->Text_0, i->Array_0[1]->Text_0);
    if items.len() > 0 {
        let front = items.drop_last();
        items_are_read(front);
        if is_text(items.last()) {
            assert(items.filter(is_text).map_values(text_of) =~= front.filter(is_text).map_values(
                text_of,
            ).push(items.last()->Text_0));
        }
        if pair(items.last()) {
            assert(items.filter(pair).map_values(pair_of) =~= front.filter(pair).map_values(
                pair_of,
            ).push(pair_of(items.last())));
        }
    } else {
        assert(items.filter(is_text).map_values(text_of) =~= Seq::<Seq<char>>::empty());
        assert(items.filter(pair).map_values(pair_of) =~= Seq::<(Seq<char>, Seq<char>)>::empty());
    }
}

/// Whether an item is an array whose first two items are texts.
pub open spec fn is_pair(item: json::Json) -> bool {
    item is Array && item->Array_0.len() >= 2 && item->Array_0[0] is Text && item->Array_0[1] is Text
}

} // verus!
