//! Text as sequences of characters: comparison, search, trimming and splitting.

use vstd::prelude::*;
use vstd::string::*;
use vstd::utf8::*;

verus! {

/// `String::push` appends one character.
pub assume_specification[ std::string::String::push ](s: &mut String, ch: char)
    ensures
        final(s)@ == old(s)@.push(ch),
;

/// The characters with the Unicode property White_Space.
#[verifier::opaque]
pub open spec fn is_space(c: char) -> bool {
    let n = c as u32;
    ||| 0x09 <= n <= 0x0d
    ||| n == 0x20
    ||| n == 0x85
    ||| n == 0xa0
    ||| n == 0x1680
    ||| 0x2000 <= n <= 0x200a
    ||| n == 0x2028
    ||| n == 0x2029
    ||| n == 0x202f
    ||| n == 0x205f
    ||| n == 0x3000
}

/// `s` without the white space at its two ends.
pub open spec fn trimmed(s: Seq<char>) -> Seq<char>
    decreases s.len(),
{
    if s.len() == 0 {
        s
    } else if is_space(s[0]) {
        trimmed(s.drop_first())
    } else if is_space(s.last()) {
        trimmed(s.drop_last())
    } else {
        s
    }
}

/// `s` without the occurrences of `c` at its end.
pub open spec fn trimmed_end(s: Seq<char>, c: char) -> Seq<char>
    decreases s.len(),
{
    if s.len() > 0 && s.last() == c {
        trimmed_end(s.drop_last(), c)
    } else {
        s
    }
}

/// `s` without the occurrences of `c` at its front.
pub open spec fn trimmed_start(s: Seq<char>, c: char) -> Seq<char>
    decreases s.len(),
{
    if s.len() > 0 && s[0] == c {
        trimmed_start(s.drop_first(), c)
    } else {
        s
    }
}

/// The maximal runs of characters of `s` that are not white space, in order.
pub open spec fn words(s: Seq<char>) -> Seq<Seq<char>>
    decreases s.len(),
{
    if s.len() == 0 {
        Seq::empty()
    } else if is_space(s.last()) {
        words(s.drop_last())
    } else if s.len() == 1 || is_space(s[s.len() - 2]) {
        words(s.drop_last()).push(seq![s.last()])
    } else {
        let before = words(s.drop_last());
        before.drop_last().push(before.last().push(s.last()))
    }
}

/// The pieces of `s` between the occurrences of `sep`; always at least one.
pub open spec fn pieces(s: Seq<char>, sep: char) -> Seq<Seq<char>>
    decreases s.len(),
{
    if s.len() == 0 {
        seq![Seq::empty()]
    } else if s.last() == sep {
        pieces(s.drop_last(), sep).push(Seq::empty())
    } else {
        let before = pieces(s.drop_last(), sep);
        before.drop_last().push(before.last().push(s.last()))
    }
}

/// Whether `part` stands in `s` as a run of consecutive characters.
pub open spec fn has_part(s: Seq<char>, part: Seq<char>) -> bool {
    exists|i: int| part_at(s, part, i)
}

/// Whether `part` stands in `s` from position `i` on.
pub open spec fn part_at(s: Seq<char>, part: Seq<char>, i: int) -> bool {
    0 <= i && i + part.len() <= s.len() && s.subrange(i, i + part.len()) == part
}

/// The views of the strings of a sequence.
pub open spec fn views(v: Seq<String>) -> Seq<Seq<char>> {
    v.map_values(|s: String| s@)
}

/// The views of the pairs of strings of a sequence.
pub open spec fn pair_views(pairs: Seq<(String, String)>) -> Seq<(Seq<char>, Seq<char>)> {
    pairs.map_values(|p: (String, String)| (p.0@, p.1@))
}

/// `a` stands before `b` in the order of their code points, as sorted listings have it.
pub open spec fn text_less(a: Seq<char>, b: Seq<char>) -> bool
    decreases a.len(),
{
    if b.len() == 0 {
        false
    } else if a.len() == 0 {
        true
    } else if a[0] != b[0] {
        (a[0] as u32) < (b[0] as u32)
    } else {
        text_less(a.drop_first(), b.drop_first())
    }
}

/// The order of texts: exactly one of less, equal, greater.
pub proof fn lemma_text_order(a: Seq<char>, b: Seq<char>)
    ensures
        a == b ==> !text_less(a, b) && !text_less(b, a),
        a != b ==> text_less(a, b) != text_less(b, a),
    decreases a.len(),
{
    if a.len() == 0 || b.len() == 0 {
        if a.len() == 0 && b.len() == 0 {
            assert(a =~= b);
        }
    } else {
        lemma_text_order(a.drop_first(), b.drop_first());
        if a[0] != b[0] {
            char_u32_cast(a[0], a[0] as u32);
            char_u32_cast(b[0], b[0] as u32);
        }
        if a[0] == b[0] && a.drop_first() == b.drop_first() {
            assert(a =~= seq![a[0]] + a.drop_first());
            assert(b =~= seq![b[0]] + b.drop_first());
        }
    }
}

/// The order of texts is transitive.
pub proof fn lemma_text_order_transitive(a: Seq<char>, b: Seq<char>, c: Seq<char>)
    requires
        text_less(a, b),
        text_less(b, c),
    ensures
        text_less(a, c),
    decreases a.len(),
{
    if a.len() > 0 && b.len() > 0 && c.len() > 0 && a[0] == b[0] && b[0] == c[0] {
        lemma_text_order_transitive(a.drop_first(), b.drop_first(), c.drop_first());
    }
}

/// The characters of a string.
pub fn chars_of(s: &str) -> (r: Vec<char>)
    ensures
        r@ == s@,
{
    let mut r: Vec<char> = Vec::new();
    for c in it: s.chars()
        invariant
            r@ == it.seq().take(it.index() as int),
            it.seq() == s@,
    {
        r.push(c);
        assert(r@ =~= it.seq().take(it.index() as int + 1));
    }
    assert(s@.take(s@.len() as int) =~= s@);
    r
}

/// The characters from `from` up to `to` as a string.
pub fn text_of(chars: &Vec<char>, from: usize, to: usize) -> (r: String)
    requires
        from <= to <= chars@.len(),
    ensures
        r@ == chars@.subrange(from as int, to as int),
{
    let mut r = String::new();
    let mut i: usize = from;
    while i < to
        invariant
            from <= i <= to <= chars@.len(),
            r@ == chars@.subrange(from as int, i as int),
        decreases to - i,
    {
        r.push(chars[i]);
        assert(chars@.subrange(from as int, i + 1) =~= chars@.subrange(from as int, i as int).push(
            chars@[i as int],
        ));
        i += 1;
    }
    r
}

/// Whether two texts are the same.
pub fn same(a: &str, b: &str) -> (r: bool)
    ensures
        r == (a@ == b@),
{
    let x = a.as_bytes();
    let y = b.as_bytes();
    proof {
        encode_utf8_decode_utf8(a@);
        encode_utf8_decode_utf8(b@);
    }
    if x.len() != y.len() {
        return false;
    }
    let mut i: usize = 0;
    while i < x.len()
        invariant
            i <= x@.len(),
            x@.len() == y@.len(),
            x@ == encode_utf8(a@),
            y@ == encode_utf8(b@),
            forall|k: int| 0 <= k < i ==> x@[k] == y@[k],
        decreases x@.len() - i,
    {
        if x[i] != y[i] {
            assert(x@ != y@);
            return false;
        }
        i += 1;
    }
    assert(x@ =~= y@);
    true
}

/// Whether the sequences of texts are the same.
pub fn same_list(a: &Vec<String>, b: &Vec<String>) -> (r: bool)
    ensures
        r == (views(a@) == views(b@)),
{
    if a.len() != b.len() {
        assert(views(a@).len() != views(b@).len());
        return false;
    }
    let mut i: usize = 0;
    while i < a.len()
        invariant
            i <= a@.len(),
            a@.len() == b@.len(),
            forall|k: int| 0 <= k < i ==> (#[trigger] a@[k])@ == b@[k]@,
        decreases a@.len() - i,
    {
        if !same(a[i].as_str(), b[i].as_str()) {
            assert(views(a@)[i as int] != views(b@)[i as int]);
            return false;
        }
        i += 1;
    }
    assert(views(a@) =~= views(b@));
    true
}

/// The position of `name` in `list`, the first one where it stands more than once.
pub fn position_of(list: &Vec<String>, name: &str) -> (r: Option<usize>)
    ensures
        match r {
            Some(i) => i < list@.len() && list@[i as int]@ == name@ && forall|k: int|
                0 <= k < i ==> (#[trigger] list@[k])@ != name@,
            None => forall|k: int| 0 <= k < list@.len() ==> (#[trigger] list@[k])@ != name@,
        },
{
    let mut i: usize = 0;
    while i < list.len()
        invariant
            i <= list@.len(),
            forall|k: int| 0 <= k < i ==> (#[trigger] list@[k])@ != name@,
        decreases list@.len() - i,
    {
        if same(list[i].as_str(), name) {
            return Some(i);
        }
        i += 1;
    }
    None
}

/// A copy of a list of strings.
pub fn copy_list(list: &Vec<String>) -> (r: Vec<String>)
    ensures
        r@ == list@,
{
    let mut r: Vec<String> = Vec::new();
    let mut i: usize = 0;
    while i < list.len()
        invariant
            i <= list@.len(),
            r@ == list@.take(i as int),
        decreases list@.len() - i,
    {
        r.push(list[i].clone());
        assert(list@.take(i + 1) =~= list@.take(i as int).push(list@[i as int]));
        i += 1;
    }
    assert(list@.take(list@.len() as int) =~= list@);
    r
}

/// Whether `a` stands before `b` in the order of code points.
pub fn before(a: &str, b: &str) -> (r: bool)
    ensures
        r == text_less(a@, b@),
{
    let x = chars_of(a);
    let y = chars_of(b);
    let mut i: usize = 0;
    assert(x@.skip(0) =~= x@);
    assert(y@.skip(0) =~= y@);
    while i < x.len() && i < y.len() && x[i] == y[i]
        invariant
            i <= x@.len(),
            i <= y@.len(),
            x@ == a@,
            y@ == b@,
            text_less(a@, b@) == text_less(x@.skip(i as int), y@.skip(i as int)),
        decreases x@.len() - i,
    {
        assert(x@.skip(i as int).drop_first() =~= x@.skip(i + 1));
        assert(y@.skip(i as int).drop_first() =~= y@.skip(i + 1));
        i += 1;
    }
    if i >= y.len() {
        false
    } else if i >= x.len() {
        true
    } else {
        (x[i] as u32) < (y[i] as u32)
    }
}

/// Whether `s` begins with `part`.
pub fn starts_with(s: &str, part: &str) -> (r: bool)
    ensures
        r == part@.is_prefix_of(s@),
{
    let x = chars_of(s);
    let p = chars_of(part);
    if p.len() > x.len() {
        return false;
    }
    part_stands_at(&x, &p, 0)
}

/// Whether the characters of `p` stand in `x` from position `at` on.
fn part_stands_at(x: &Vec<char>, p: &Vec<char>, at: usize) -> (r: bool)
    requires
        at + p@.len() <= x@.len(),
    ensures
        r == (x@.subrange(at as int, at + p@.len()) == p@),
{
    let mut i: usize = 0;
    while i < p.len()
        invariant
            i <= p@.len(),
            at + p@.len() <= x.len(),
            forall|k: int| 0 <= k < i ==> x@[at + k] == #[trigger] p@[k],
        decreases p@.len() - i,
    {
        if x[at + i] != p[i] {
            assert(x@.subrange(at as int, at + p@.len())[i as int] != p@[i as int]);
            return false;
        }
        i += 1;
    }
    assert(x@.subrange(at as int, at + p@.len()) =~= p@);
    true
}

/// `s` without the ending `part`, where it has that ending.
pub fn strip_suffix(s: &str, part: &str) -> (r: Option<String>)
    ensures
        r is Some == part@.is_suffix_of(s@),
        r is Some ==> r->0@ + part@ == s@,
{
    let x = chars_of(s);
    let p = chars_of(part);
    if p.len() > x.len() {
        return None;
    }
    let cut: usize = x.len() - p.len();
    if part_stands_at(&x, &p, cut) {
        let r = text_of(&x, 0, cut);
        assert(r@ + part@ =~= s@);
        Some(r)
    } else {
        None
    }
}

/// Whether `part` stands somewhere in `s`.
pub fn contains(s: &str, part: &str) -> (r: bool)
    ensures
        r == has_part(s@, part@),
{
    let x = chars_of(s);
    let p = chars_of(part);
    if p.len() > x.len() {
        return false;
    }
    let last: usize = x.len() - p.len();
    let mut at: usize = 0;
    while at <= last
        invariant
            at <= last + 1,
            last + p@.len() == x@.len(),
            x@ == s@,
            p@ == part@,
            forall|i: int| 0 <= i < at ==> !part_at(s@, part@, i),
        decreases last + 1 - at,
    {
        if part_stands_at(&x, &p, at) {
            assert(part_at(s@, part@, at as int));
            return true;
        }
        if at == last {
            return false;
        }
        at += 1;
    }
    false
}

/// The text `a` followed by the text `b`.
pub fn join2(a: &str, b: &str) -> (r: String)
    ensures
        r@ == a@ + b@,
{
    let mut r = a.to_owned();
    r.append(b);
    r
}

/// The three texts one after the other.
pub fn join3(a: &str, b: &str, c: &str) -> (r: String)
    ensures
        r@ == a@ + b@ + c@,
{
    let mut r = a.to_owned();
    r.append(b);
    r.append(c);
    r
}

/// The path of `name` in the directory `dir`, as Unix writes it. A name that begins with a
/// slash is a path of its own, wherever it is looked for.
pub open spec fn path_in(dir: Seq<char>, name: Seq<char>) -> Seq<char> {
    if name.len() > 0 && name[0] == '/' {
        name
    } else if dir.len() == 0 || dir.last() == '/' {
        dir + name
    } else {
        dir + seq!['/'] + name
    }
}

/// The path of `name` in the directory `dir`.
pub fn join_path(dir: &str, name: &str) -> (r: String)
    ensures
        r@ == path_in(dir@, name@),
{
    let y = chars_of(name);
    if y.len() > 0 && y[0] == '/' {
        return name.to_owned();
    }
    let x = chars_of(dir);
    let mut r = dir.to_owned();
    if x.len() > 0 && x[x.len() - 1] != '/' {
        r.push('/');
        assert(r@ =~= dir@ + seq!['/']);
    }
    r.append(name);
    r
}

/// Whether `c` is white space.
pub fn space(c: char) -> (r: bool)
    ensures
        r == is_space(c),
{
    proof {
        reveal(is_space);
    }
    let n: u32 = c as u32;
    (0x09 <= n && n <= 0x0d) || n == 0x20 || n == 0x85 || n == 0xa0 || n == 0x1680 || (0x2000 <= n
        && n <= 0x200a) || n == 0x2028 || n == 0x2029 || n == 0x202f || n == 0x205f || n == 0x3000
}

/// `s` without the white space at its two ends.
pub fn trim(s: &str) -> (r: String)
    ensures
        r@ == trimmed(s@),
{
    let x = chars_of(s);
    let mut from: usize = 0;
    let mut to: usize = x.len();
    assert(x@.subrange(0, x@.len() as int) =~= x@);
    while from < to && space(x[from])
        invariant
            from <= to,
            to == x@.len(),
            trimmed(s@) == trimmed(x@.subrange(from as int, to as int)),
        decreases to - from,
    {
        assert(x@.subrange(from as int, to as int).drop_first() =~= x@.subrange(
            from + 1,
            to as int,
        ));
        from += 1;
    }
    while from < to && space(x[to - 1])
        invariant
            from <= to <= x@.len(),
            from < to ==> !is_space(x@[from as int]),
            trimmed(s@) == trimmed(x@.subrange(from as int, to as int)),
        decreases to - from,
    {
        assert(x@.subrange(from as int, to as int).drop_last() =~= x@.subrange(
            from as int,
            to - 1,
        ));
        to -= 1;
    }
    text_of(&x, from, to)
}

/// `s` without the occurrences of `c` at its end.
pub fn trim_end_matches(s: &str, c: char) -> (r: String)
    ensures
        r@ == trimmed_end(s@, c),
{
    let x = chars_of(s);
    let mut to: usize = x.len();
    assert(x@.subrange(0, x@.len() as int) =~= x@);
    while to > 0 && x[to - 1] == c
        invariant
            to <= x@.len(),
            trimmed_end(s@, c) == trimmed_end(x@.subrange(0, to as int), c),
        decreases to,
    {
        assert(x@.subrange(0, to as int).drop_last() =~= x@.subrange(0, to - 1));
        to -= 1;
    }
    text_of(&x, 0, to)
}

/// `s` without the occurrences of `c` at its front.
pub fn trim_start_matches(s: &str, c: char) -> (r: String)
    ensures
        r@ == trimmed_start(s@, c),
{
    let x = chars_of(s);
    let mut from: usize = 0;
    assert(x@.skip(0) =~= x@);
    while from < x.len() && x[from] == c
        invariant
            from <= x@.len(),
            trimmed_start(s@, c) == trimmed_start(x@.skip(from as int), c),
        decreases x@.len() - from,
    {
        assert(x@.skip(from as int).drop_first() =~= x@.skip(from + 1));
        from += 1;
    }
    let r = text_of(&x, from, x.len());
    assert(r@ =~= x@.skip(from as int));
    r
}

/// The runs of characters of `s` that are not white space.
pub fn split_whitespace(s: &str) -> (r: Vec<String>)
    ensures
        views(r@) == words(s@),
{
    let x = chars_of(s);
    let mut r: Vec<String> = Vec::new();
    let mut word = String::new();
    let mut open: bool = false;
    let mut i: usize = 0;
    assert(views(r@) =~= Seq::<Seq<char>>::empty());
    while i < x.len()
        invariant
            i <= x@.len(),
            x@ == s@,
            open == (i > 0 && !is_space(x@[i - 1])),
            open ==> words(x@.take(i as int)) == views(r@).push(word@),
            !open ==> words(x@.take(i as int)) == views(r@) && word@.len() == 0,
        decreases x@.len() - i,
    {
        let c = x[i];
        let ghost now = x@.take(i + 1);
        assert(now.drop_last() =~= x@.take(i as int));
        assert(now.last() == c);
        if space(c) {
            if open {
                let ghost was = r@;
                r.push(word);
                assert(views(r@) =~= views(was).push(word@));
                word = String::new();
                open = false;
            }
        } else {
            let ghost was = word@;
            word.push(c);
            if open {
                assert(views(r@).push(was).drop_last() =~= views(r@));
            } else {
                assert(was.push(c) =~= seq![c]);
            }
            open = true;
        }
        i += 1;
    }
    assert(x@.take(x@.len() as int) =~= x@);
    if open {
        let ghost was = r@;
        r.push(word);
        assert(views(r@) =~= views(was).push(word@));
    }
    r
}

/// The pieces of `s` between the occurrences of `sep`.
pub fn split(s: &str, sep: char) -> (r: Vec<String>)
    ensures
        views(r@) == pieces(s@, sep),
{
    let x = chars_of(s);
    let mut r: Vec<String> = Vec::new();
    let mut piece = String::new();
    let mut i: usize = 0;
    assert(views(r@).push(piece@) =~= seq![Seq::<char>::empty()]);
    while i < x.len()
        invariant
            i <= x@.len(),
            x@ == s@,
            pieces(x@.take(i as int), sep) == views(r@).push(piece@),
        decreases x@.len() - i,
    {
        let c = x[i];
        let ghost now = x@.take(i + 1);
        assert(now.drop_last() =~= x@.take(i as int));
        assert(now.last() == c);
        assert(views(r@).push(piece@).drop_last() =~= views(r@));
        if c == sep {
            let ghost was = r@;
            r.push(piece);
            assert(views(r@) =~= views(was).push(piece@));
            piece = String::new();
        } else {
            piece.push(c);
        }
        i += 1;
    }
    assert(x@.take(x@.len() as int) =~= x@);
    let ghost was = r@;
    r.push(piece);
    assert(views(r@) =~= views(was).push(piece@));
    r
}

/// The pairs with one more, behind those whose first text is not greater.
pub open spec fn insert_pair(
    pairs: Seq<(Seq<char>, Seq<char>)>,
    pair: (Seq<char>, Seq<char>),
) -> Seq<(Seq<char>, Seq<char>)>
    decreases pairs.len(),
{
    if pairs.len() == 0 || !text_less(pair.0, pairs.last().0) {
        pairs.push(pair)
    } else {
        insert_pair(pairs.drop_last(), pair).push(pairs.last())
    }
}

/// The pairs in the order of their first texts; those of the same text stay in their order.
pub open spec fn sorted_pairs(pairs: Seq<(Seq<char>, Seq<char>)>) -> Seq<(Seq<char>, Seq<char>)>
    decreases pairs.len(),
{
    if pairs.len() == 0 {
        Seq::empty()
    } else {
        insert_pair(sorted_pairs(pairs.drop_last()), pairs.last())
    }
}

pub open spec fn pairs_in_order(pairs: Seq<(Seq<char>, Seq<char>)>) -> bool {
    forall|i: int, j: int|
        #![trigger pairs[i], pairs[j]]
        0 <= i < j < pairs.len() ==> !text_less(pairs[j].0, pairs[i].0)
}

proof fn lemma_insert_pair(pairs: Seq<(Seq<char>, Seq<char>)>, pair: (Seq<char>, Seq<char>))
    requires
        pairs_in_order(pairs),
    ensures
        pairs_in_order(insert_pair(pairs, pair)),
        insert_pair(pairs, pair).len() == pairs.len() + 1,
        insert_pair(pairs, pair).to_multiset() == pairs.to_multiset().insert(pair),
        forall|k: int|
            0 <= k < insert_pair(pairs, pair).len() ==> (#[trigger] insert_pair(pairs, pair)[k])
                == pair || pairs.contains(insert_pair(pairs, pair)[k]),
    decreases pairs.len(),
{
    broadcast use vstd::seq_lib::group_to_multiset_ensures;

    let after = insert_pair(pairs, pair);
    if pairs.len() == 0 || !text_less(pair.0, pairs.last().0) {
        assert forall|i: int, j: int|
            #![trigger after[i], after[j]]
            0 <= i < j < after.len() implies !text_less(after[j].0, after[i].0) by {
            assert(after[i] == pairs[i]);
            if j < pairs.len() {
                assert(after[j] == pairs[j]);
            } else if i < pairs.len() - 1 {
                let last = pairs[pairs.len() - 1];
                assert(!text_less(last.0, pairs[i].0));
                lemma_text_order(last.0, pairs[i].0);
                lemma_text_order(pair.0, last.0);
                lemma_text_order(pair.0, pairs[i].0);
                if text_less(pair.0, pairs[i].0) {
                    if pairs[i].0 != last.0 {
                        lemma_text_order_transitive(pair.0, pairs[i].0, last.0);
                    }
                }
            }
        }
        assert forall|k: int| 0 <= k < after.len() implies (#[trigger] after[k]) == pair
            || pairs.contains(after[k]) by {
            if k < pairs.len() {
                assert(after[k] == pairs[k]);
            }
        }
    } else {
        let rest = pairs.drop_last();
        lemma_insert_pair(rest, pair);
        let inner = insert_pair(rest, pair);
        let last = pairs.last();
        assert(pairs =~= rest.push(last));
        lemma_text_order(pair.0, last.0);
        assert forall|i: int, j: int|
            #![trigger after[i], after[j]]
            0 <= i < j < after.len() implies !text_less(after[j].0, after[i].0) by {
            assert(after[i] == inner[i]);
            if j < inner.len() {
                assert(after[j] == inner[j]);
            } else if inner[i] != pair {
                assert(rest.contains(inner[i]));
                let k = choose|k: int| 0 <= k < rest.len() && rest[k] == inner[i];
                assert(pairs[k] == rest[k]);
                assert(!text_less(pairs[pairs.len() - 1].0, pairs[k].0));
            }
        }
        assert forall|k: int| 0 <= k < after.len() implies (#[trigger] after[k]) == pair
            || pairs.contains(after[k]) by {
            if k < inner.len() {
                assert(after[k] == inner[k]);
                if inner[k] != pair {
                    let m = choose|m: int| 0 <= m < rest.len() && rest[m] == inner[k];
                    assert(pairs[m] == rest[m]);
                }
            } else {
                assert(after[k] == pairs[pairs.len() - 1]);
            }
        }
    }
}

/// Sorting keeps the pairs and puts them in order.
pub proof fn sorting_orders_the_pairs(pairs: Seq<(Seq<char>, Seq<char>)>)
    ensures
        pairs_in_order(sorted_pairs(pairs)),
        sorted_pairs(pairs).to_multiset() == pairs.to_multiset(),
    decreases pairs.len(),
{
    broadcast use vstd::seq_lib::group_to_multiset_ensures;

    if pairs.len() > 0 {
        sorting_orders_the_pairs(pairs.drop_last());
        lemma_insert_pair(sorted_pairs(pairs.drop_last()), pairs.last());
        assert(pairs =~= pairs.drop_last().push(pairs.last()));
    }
}

/// Adds a pair behind those whose first text is not greater.
fn add_pair(pairs: &mut Vec<(String, String)>, first: String, second: String)
    ensures
        pair_views(final(pairs)@) == insert_pair(pair_views(old(pairs)@), (first@, second@)),
{
    let ghost before = pair_views(pairs@);
    let ghost pair = (first@, second@);
    let mut at: usize = pairs.len();
    assert(before.take(at as int) =~= before);
    assert(insert_pair(before, pair) =~= insert_pair(before.take(at as int), pair) + before.skip(
        at as int,
    ));
    while at > 0 && self::before(first.as_str(), pairs[at - 1].0.as_str())
        invariant
            at <= pairs@.len(),
            *pairs == *old(pairs),
            pair == (first@, second@),
            before == pair_views(pairs@),
            insert_pair(before, pair) == insert_pair(before.take(at as int), pair) + before.skip(
                at as int,
            ),
        decreases at,
    {
        let ghost front = before.take(at as int);
        assert(front.last() == before[at - 1]);
        assert(front.drop_last() =~= before.take(at - 1));
        assert(insert_pair(front.drop_last(), pair).push(front.last()) + before.skip(at as int)
            =~= insert_pair(before.take(at - 1), pair) + before.skip(at - 1));
        at -= 1;
    }
    assert(at > 0 ==> before.take(at as int).last() == before[at - 1]);
    pairs.insert(at, (first, second));
    assert(pair_views(pairs@) =~= before.take(at as int).push(pair) + before.skip(at as int));
}

/// The pairs in the order of their first texts.
pub fn sort_pairs(pairs: &Vec<(String, String)>) -> (r: Vec<(String, String)>)
    ensures
        pair_views(r@) == sorted_pairs(pair_views(pairs@)),
{
    let ghost all = pair_views(pairs@);
    let mut r: Vec<(String, String)> = Vec::new();
    let mut i: usize = 0;
    assert(pair_views(r@) =~= sorted_pairs(all.take(0)));
    while i < pairs.len()
        invariant
            i <= pairs@.len(),
            all == pair_views(pairs@),
            pair_views(r@) == sorted_pairs(all.take(i as int)),
        decreases pairs@.len() - i,
    {
        assert(all.take(i + 1).drop_last() =~= all.take(i as int));
        assert(all.take(i + 1).last() == (pairs@[i as int].0@, pairs@[i as int].1@));
        add_pair(&mut r, pairs[i].0.clone(), pairs[i].1.clone());
        i += 1;
    }
    assert(all.take(i as int) =~= all);
    r
}

/// The texts with one more, behind those that are not greater.
pub open spec fn insert_name(names: Seq<Seq<char>>, name: Seq<char>) -> Seq<Seq<char>>
    decreases names.len(),
{
    if names.len() == 0 || !text_less(name, names.last()) {
        names.push(name)
    } else {
        insert_name(names.drop_last(), name).push(names.last())
    }
}

/// The texts in order.
pub open spec fn sorted_names(names: Seq<Seq<char>>) -> Seq<Seq<char>>
    decreases names.len(),
{
    if names.len() == 0 {
        Seq::empty()
    } else {
        insert_name(sorted_names(names.drop_last()), names.last())
    }
}

pub open spec fn names_in_order(names: Seq<Seq<char>>) -> bool {
    forall|i: int, j: int|
        #![trigger names[i], names[j]]
        0 <= i < j < names.len() ==> !text_less(names[j], names[i])
}

proof fn lemma_insert_name(names: Seq<Seq<char>>, name: Seq<char>)
    requires
        names_in_order(names),
    ensures
        names_in_order(insert_name(names, name)),
        insert_name(names, name).to_multiset() == names.to_multiset().insert(name),
        forall|k: int|
            0 <= k < insert_name(names, name).len() ==> (#[trigger] insert_name(names, name)[k])
                == name || names.contains(insert_name(names, name)[k]),
    decreases names.len(),
{
    broadcast use vstd::seq_lib::group_to_multiset_ensures;

    let after = insert_name(names, name);
    if names.len() == 0 || !text_less(name, names.last()) {
        assert forall|i: int, j: int|
            #![trigger after[i], after[j]]
            0 <= i < j < after.len() implies !text_less(after[j], after[i]) by {
            assert(after[i] == names[i]);
            if j < names.len() {
                assert(after[j] == names[j]);
            } else if i < names.len() - 1 {
                let last = names[names.len() - 1];
                assert(!text_less(last, names[i]));
                lemma_text_order(last, names[i]);
                lemma_text_order(name, last);
                lemma_text_order(name, names[i]);
                if text_less(name, names[i]) {
                    if names[i] != last {
                        lemma_text_order_transitive(name, names[i], last);
                    }
                }
            }
        }
        assert forall|k: int| 0 <= k < after.len() implies (#[trigger] after[k]) == name
            || names.contains(after[k]) by {
            if k < names.len() {
                assert(after[k] == names[k]);
            }
        }
    } else {
        let rest = names.drop_last();
        lemma_insert_name(rest, name);
        let inner = insert_name(rest, name);
        let last = names.last();
        assert(names =~= rest.push(last));
        lemma_text_order(name, last);
        assert forall|i: int, j: int|
            #![trigger after[i], after[j]]
            0 <= i < j < after.len() implies !text_less(after[j], after[i]) by {
            assert(after[i] == inner[i]);
            if j < inner.len() {
                assert(after[j] == inner[j]);
            } else if inner[i] != name {
                assert(rest.contains(inner[i]));
                let k = choose|k: int| 0 <= k < rest.len() && rest[k] == inner[i];
                assert(names[k] == rest[k]);
                assert(!text_less(names[names.len() - 1], names[k]));
            }
        }
        assert forall|k: int| 0 <= k < after.len() implies (#[trigger] after[k]) == name
            || names.contains(after[k]) by {
            if k < inner.len() {
                assert(after[k] == inner[k]);
                if inner[k] != name {
                    let m = choose|m: int| 0 <= m < rest.len() && rest[m] == inner[k];
                    assert(names[m] == rest[m]);
                }
            } else {
                assert(after[k] == names[names.len() - 1]);
            }
        }
    }
}

/// Sorting keeps the texts and puts them in order.
pub proof fn sorting_orders_the_names(names: Seq<Seq<char>>)
    ensures
        names_in_order(sorted_names(names)),
        sorted_names(names).to_multiset() == names.to_multiset(),
    decreases names.len(),
{
    broadcast use vstd::seq_lib::group_to_multiset_ensures;

    if names.len() > 0 {
        sorting_orders_the_names(names.drop_last());
        lemma_insert_name(sorted_names(names.drop_last()), names.last());
        assert(names =~= names.drop_last().push(names.last()));
    }
}

/// Sorting depends only on which texts there are: two lists with the same texts are the
/// same when sorted.
pub proof fn sorting_forgets_the_order(a: Seq<Seq<char>>, b: Seq<Seq<char>>)
    requires
        a.to_multiset() == b.to_multiset(),
    ensures
        sorted_names(a) == sorted_names(b),
{
    sorting_orders_the_names(a);
    sorting_orders_the_names(b);
    let leq = |x: Seq<char>, y: Seq<char>| !text_less(y, x);
    assert(vstd::relations::total_ordering(leq)) by {
        assert forall|x: Seq<char>| #[trigger] leq(x, x) by {
            lemma_text_order(x, x);
        }
        assert forall|x: Seq<char>, y: Seq<char>| #[trigger] leq(x, y) && #[trigger] leq(
            y,
            x,
        ) implies x == y by {
            lemma_text_order(x, y);
        }
        assert forall|x: Seq<char>, y: Seq<char>, z: Seq<char>| #[trigger] leq(x, y)
            && #[trigger] leq(y, z) implies leq(x, z) by {
            lemma_text_order(x, y);
            lemma_text_order(y, z);
            lemma_text_order(z, x);
            if text_less(z, x) {
                if x != y {
                    if y != z {
                        lemma_text_order_transitive(y, z, x);
                    }
                }
            }
        }
        assert forall|x: Seq<char>, y: Seq<char>| #[trigger] leq(x, y) || #[trigger] leq(y, x) by {
            lemma_text_order(x, y);
        }
    }
    let x = sorted_names(a);
    let y = sorted_names(b);
    assert(vstd::relations::sorted_by(x, leq)) by {
        assert forall|i: int, j: int| 0 <= i < j < x.len() implies #[trigger] leq(x[i], x[j]) by {}
    }
    assert(vstd::relations::sorted_by(y, leq)) by {
        assert forall|i: int, j: int| 0 <= i < j < y.len() implies #[trigger] leq(y[i], y[j]) by {}
    }
    vstd::seq_lib::lemma_sorted_unique(x, y, leq);
}

/// Adds a text behind those that are not greater.
fn add_name(names: &mut Vec<String>, name: String)
    ensures
        views(final(names)@) == insert_name(views(old(names)@), name@),
{
    let ghost before = views(names@);
    let mut at: usize = names.len();
    assert(before.take(at as int) =~= before);
    assert(insert_name(before, name@) =~= insert_name(before.take(at as int), name@)
        + before.skip(at as int));
    while at > 0 && self::before(name.as_str(), names[at - 1].as_str())
        invariant
            at <= names@.len(),
            *names == *old(names),
            before == views(names@),
            insert_name(before, name@) == insert_name(before.take(at as int), name@)
                + before.skip(at as int),
        decreases at,
    {
        let ghost front = before.take(at as int);
        assert(front.last() == before[at - 1]);
        assert(front.drop_last() =~= before.take(at - 1));
        assert(insert_name(front.drop_last(), name@).push(front.last()) + before.skip(at as int)
            =~= insert_name(before.take(at - 1), name@) + before.skip(at - 1));
        at -= 1;
    }
    assert(at > 0 ==> before.take(at as int).last() == before[at - 1]);
    names.insert(at, name);
    assert(views(names@) =~= before.take(at as int).push(name@) + before.skip(at as int));
}

/// The texts in order.
pub fn sort_names(names: &Vec<String>) -> (r: Vec<String>)
    ensures
        views(r@) == sorted_names(views(names@)),
{
    let ghost all = views(names@);
    let mut r: Vec<String> = Vec::new();
    let mut i: usize = 0;
    assert(views(r@) =~= sorted_names(all.take(0)));
    while i < names.len()
        invariant
            i <= names@.len(),
            all == views(names@),
            views(r@) == sorted_names(all.take(i as int)),
        decreases names@.len() - i,
    {
        assert(all.take(i + 1).drop_last() =~= all.take(i as int));
        assert(all.take(i + 1).last() == names@[i as int]@);
        add_name(&mut r, names[i].clone());
        i += 1;
    }
    assert(all.take(i as int) =~= all);
    r
}

} // verus!
