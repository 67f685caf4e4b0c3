//! Requests and replies as plain values: query strings, headers, bodies.

use crate::decimal;
use crate::text;
use vstd::prelude::*;
use vstd::utf8::*;

verus! {

/// A reply with a text as its body.
#[derive(Debug)]
pub struct Reply {
    pub status: u16,
    pub body: String,
}

impl Reply {
    pub open spec fn is(&self, status: u16, body: Seq<char>) -> bool {
        self.status == status && self.body@ == body
    }

    pub fn new(status: u16, body: &str) -> (r: Reply)
        ensures
            r.is(status, body@),
    {
        Reply { status, body: body.to_owned() }
    }
}

/// Whether a byte stands for itself in a form.
pub open spec fn form_unchanged(b: u8) -> bool {
    ||| b == 0x2a
    ||| b == 0x2d
    ||| b == 0x2e
    ||| 0x30 <= b <= 0x39
    ||| 0x41 <= b <= 0x5a
    ||| b == 0x5f
    ||| 0x61 <= b <= 0x7a
}

/// The hexadecimal digit of a number below sixteen, with upper-case letters.
pub open spec fn hex_digit(n: u8) -> char {
    if n < 10 {
        ((n + 0x30) as u8) as char
    } else {
        ((n + 0x37) as u8) as char
    }
}

/// How a form writes one byte: as itself, a space as `+`, any other as `%` and two digits.
pub open spec fn form_byte(b: u8) -> Seq<char> {
    if form_unchanged(b) {
        seq![b as char]
    } else if b == 0x20 {
        seq!['+']
    } else {
        seq!['%', hex_digit(b / 16), hex_digit(b % 16)]
    }
}

/// How a form writes some bytes.
pub open spec fn form_bytes(bytes: Seq<u8>) -> Seq<char>
    decreases bytes.len(),
{
    if bytes.len() == 0 {
        Seq::empty()
    } else {
        form_bytes(bytes.drop_last()) + form_byte(bytes.last())
    }
}

/// How a form writes a text.
pub open spec fn form_encoded(s: Seq<char>) -> Seq<char> {
    form_bytes(encode_utf8(s))
}

/// How a form writes names with values: `name=value`, with `&` between them.
pub open spec fn form_written(pairs: Seq<(Seq<char>, Seq<char>)>) -> Seq<char>
    decreases pairs.len(),
{
    if pairs.len() == 0 {
        Seq::empty()
    } else {
        let (name, value) = pairs.last();
        let one = form_encoded(name) + seq!['='] + form_encoded(value);
        if pairs.len() == 1 {
            one
        } else {
            form_written(pairs.drop_last()) + seq!['&'] + one
        }
    }
}

/// A form writes a text as itself where it writes each of its characters as itself.
pub proof fn lemma_form_encoded_plain(s: Seq<char>)
    requires
        forall|i: int| 0 <= i < s.len() ==> #[trigger] plain(s[i]),
    ensures
        form_encoded(s) == s,
{
    assert forall|i: int| 0 <= i < s.len() implies '\0' <= #[trigger] s[i] <= '\u{7f}' by {
        assert(plain(s[i]));
    }
    assert(is_ascii_chars(s));
    is_ascii_chars_encode_utf8(s);
    lemma_plain_bytes(s, s.len() as int);
    assert(s.take(s.len() as int) =~= s);
    assert(encode_utf8(s).take(s.len() as int) =~= encode_utf8(s));
}

/// Whether a form writes a character as itself.
pub open spec fn plain(c: char) -> bool {
    '\0' <= c <= '\u{7f}' && form_unchanged(c as u8)
}

proof fn lemma_plain_bytes(s: Seq<char>, n: int)
    requires
        0 <= n <= s.len(),
        forall|i: int| 0 <= i < s.len() ==> #[trigger] plain(s[i]),
        encode_utf8(s) =~= Seq::new(s.len(), |i: int| s[i] as u8),
    ensures
        form_bytes(encode_utf8(s).take(n)) == s.take(n),
    decreases n,
{
    let bytes = encode_utf8(s);
    if n > 0 {
        lemma_plain_bytes(s, n - 1);
        assert(bytes.take(n).drop_last() =~= bytes.take(n - 1));
        assert(plain(s[n - 1]));
        let c = s[n - 1];
        assert(bytes[n - 1] == c as u8);
        assert((c as u8) as char == c);
        assert(form_byte(bytes[n - 1]) =~= seq![s[n - 1]]);
        assert(s.take(n) =~= s.take(n - 1).push(s[n - 1]));
    } else {
        assert(s.take(0) =~= Seq::<char>::empty());
        assert(bytes.take(0) =~= Seq::<u8>::empty());
    }
}

proof fn lemma_numeral_plain(n: nat)
    ensures
        forall|i: int| 0 <= i < decimal::numeral(n).len() ==> #[trigger] plain(
            decimal::numeral(n)[i],
        ),
{
    decimal::lemma_numeral_value(n);
    let d = decimal::numeral(n);
    assert forall|i: int| 0 <= i < d.len() implies #[trigger] plain(d[i]) by {
        assert(decimal::is_digit(d[i]));
    }
}

/// A form writes the numeral of a number as itself.
pub proof fn lemma_form_encoded_numeral(n: int)
    ensures
        form_encoded(decimal::signed_numeral(n)) == decimal::signed_numeral(n),
{
    let s = decimal::signed_numeral(n);
    if n < 0 {
        lemma_numeral_plain((-n) as nat);
    } else {
        lemma_numeral_plain(n as nat);
    }
    assert forall|i: int| 0 <= i < s.len() implies #[trigger] plain(s[i]) by {
        if n < 0 {
            if i > 0 {
                assert(s[i] == decimal::numeral((-n) as nat)[i - 1]);
                assert(plain(decimal::numeral((-n) as nat)[i - 1]));
            }
        } else {
            assert(plain(decimal::numeral(n as nat)[i]));
        }
    }
    lemma_form_encoded_plain(s);
}

/// The names and values that `url::form_urlencoded::parse` reads from a query string.
pub uninterp spec fn form_pairs(query: Seq<char>) -> Seq<(Seq<char>, Seq<char>)>;

/// `url::form_urlencoded::byte_serialize` on the bytes of a text: each byte as a form
/// writes it.
#[verifier::external_body]
pub(crate) fn form_encode(s: &str) -> (r: String)
    ensures
        r@ == form_encoded(s@),
{
    url::form_urlencoded::byte_serialize(s.as_bytes()).collect()
}

/// `url::form_urlencoded::parse` on the bytes of a query string. The result is a function
/// of the query string; of what a form has written it is the names and values written.
#[verifier::external_body]
pub(crate) fn form_parse(query: &str) -> (r: Vec<(String, String)>)
    ensures
        text::pair_views(r@) == form_pairs(query@),
        forall|pairs: Seq<(Seq<char>, Seq<char>)>|
            query@ == #[trigger] form_written(pairs) ==> text::pair_views(r@) == pairs,
{
    url::form_urlencoded::parse(query.as_bytes()).into_owned().collect()
}

/// The value of the first pair with a given name.
pub open spec fn first_value(
    pairs: Seq<(Seq<char>, Seq<char>)>,
    name: Seq<char>,
) -> Option<Seq<char>>
    decreases pairs.len(),
{
    if pairs.len() == 0 {
        None
    } else if pairs[0].0 == name {
        Some(pairs[0].1)
    } else {
        first_value(pairs.drop_first(), name)
    }
}

/// The value of the first pair with a given name.
pub fn find_value(pairs: &Vec<(String, String)>, name: &str) -> (r: Option<String>)
    ensures
        r is Some == first_value(text::pair_views(pairs@), name@) is Some,
        r is Some ==> r->0@ == first_value(text::pair_views(pairs@), name@)->0,
{
    let ghost all = text::pair_views(pairs@);
    let mut i: usize = 0;
    assert(all.skip(0) =~= all);
    while i < pairs.len()
        invariant
            i <= pairs@.len(),
            all == text::pair_views(pairs@),
            first_value(all, name@) == first_value(all.skip(i as int), name@),
        decreases pairs@.len() - i,
    {
        assert(all.skip(i as int)[0] == (pairs@[i as int].0@, pairs@[i as int].1@));
        if text::same(pairs[i].0.as_str(), name) {
            return Some(pairs[i].1.clone());
        }
        assert(all.skip(i as int).drop_first() =~= all.skip(i + 1));
        i += 1;
    }
    None
}

/// The pairs of a query string, none where there is no query string.
pub open spec fn query_pairs(query: Option<Seq<char>>) -> Seq<(Seq<char>, Seq<char>)> {
    match query {
        Some(q) => form_pairs(q),
        None => Seq::empty(),
    }
}

pub open spec fn optional_view(s: Option<&str>) -> Option<Seq<char>> {
    match s {
        Some(t) => Some(t@),
        None => None,
    }
}

/// Reads the pairs of a query string, none where there is no query string.
pub fn parse_query(query: Option<&str>) -> (r: Vec<(String, String)>)
    ensures
        text::pair_views(r@) == query_pairs(optional_view(query)),
        forall|pairs: Seq<(Seq<char>, Seq<char>)>|
            query is Some && query->0@ == #[trigger] form_written(pairs) ==> text::pair_views(r@)
                == pairs,
{
    match query {
        Some(q) => form_parse(q),
        None => {
            let r: Vec<(String, String)> = Vec::new();
            assert(text::pair_views(r@) =~= Seq::<(Seq<char>, Seq<char>)>::empty());
            r
        },
    }
}

/// `std::str::from_utf8`: the text that the bytes encode, where they are valid UTF-8.
#[verifier::external_body]
pub(crate) fn utf8_text<'a>(bytes: &'a Vec<u8>) -> (r: Option<&'a str>)
    ensures
        r is Some == valid_utf8(bytes@),
        r is Some ==> encode_utf8(r->0@) == bytes@,
{
    std::str::from_utf8(bytes).ok()
}

/// The length that a request declares, 0 where it declares none.
pub open spec fn declared_length(header: Option<Seq<char>>) -> nat {
    match header {
        Some(h) => match decimal::unsigned_value(h, usize::MAX as nat) {
            Some(n) => n,
            None => 0,
        },
        None => 0,
    }
}

/// Reads the length that a request declares, 0 where it declares none.
pub fn content_length(header: Option<&str>) -> (r: usize)
    ensures
        r == declared_length(optional_view(header)),
{
    match header {
        Some(h) => match decimal::parse_usize(h) {
            Some(n) => n,
            None => 0,
        },
        None => 0,
    }
}

/// The text that `String::from_utf8_lossy` makes of some bytes.
pub uninterp spec fn lossy_text(bytes: Seq<u8>) -> Seq<char>;

/// `String::from_utf8_lossy`: the text that the bytes encode; what is not valid UTF-8 is
/// replaced. The result is a function of the bytes.
#[verifier::external_body]
pub(crate) fn utf8_lossy(bytes: &Vec<u8>) -> (r: String)
    ensures
        r@ == lossy_text(bytes@),
        valid_utf8(bytes@) ==> encode_utf8(r@) == bytes@,
{
    String::from_utf8_lossy(bytes).into_owned()
}

/// The text that `str::to_lowercase` makes of a text.
pub uninterp spec fn lowercase(s: Seq<char>) -> Seq<char>;

/// A character with its ASCII letter in lower case.
pub open spec fn ascii_lower(c: char) -> char {
    if 'A' <= c <= 'Z' {
        ((c as u8 + 32) as u8) as char
    } else {
        c
    }
}

/// `str::to_lowercase`. The result is a function of the text; in a text of ASCII
/// characters it changes the upper-case letters and nothing else.
#[verifier::external_body]
pub(crate) fn to_lowercase(s: &str) -> (r: String)
    ensures
        r@ == lowercase(s@),
        is_ascii_chars(s@) ==> r@ == s@.map_values(|c: char| ascii_lower(c)),
{
    s.to_lowercase()
}

} // verus!
