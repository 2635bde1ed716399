//! Text as the installer reads and writes it: characters, words, pieces, numbers.
//!
//! Every function here works on `Seq<char>`, the view of a string, so that what is typed at a
//! prompt and what is printed can be spoken of exactly.
use vstd::prelude::*;

verus! {

broadcast use vstd::string::group_string_axioms;

/// `String::push`: the character is added at the end and nothing else changes.
pub assume_specification[ String::push ](s: &mut String, c: char)
    ensures
        final(s)@ == old(s)@.push(c),
;

/// The characters of a string, in order.
pub fn chars_of(s: &str) -> (r: Vec<char>)
    ensures
        r@ == s@,
{
    let mut r: Vec<char> = Vec::new();
    for c in it: s.chars()
        invariant
            r@ == it.seq().take(it.index() as int),
            it.seq() == s@,
    {
        r.push(c);
    }
    r
}

/// The string made of the characters `cs[from..to]`.
pub fn string_of(cs: &Vec<char>, from: usize, to: usize) -> (r: String)
    requires
        from <= to <= cs@.len(),
    ensures
        r@ == cs@.subrange(from as int, to as int),
{
    let mut r = String::new();
    let mut i: usize = from;
    while i < to
        invariant
            from <= i <= to <= cs@.len(),
            r@ == cs@.subrange(from as int, i as int),
        decreases to - i,
    {
        r.push(cs[i]);
        i = i + 1;
    }
    r
}

/// Do two strings hold the same characters?
pub fn same_text(a: &str, b: &str) -> (r: bool)
    ensures
        r == (a@ == b@),
{
    a.to_owned() == b.to_owned()
}

/// What a list of strings says: the characters of each, in order.
pub open spec fn texts(v: Seq<String>) -> Seq<Seq<char>> {
    v.map_values(|s: String| s@)
}

/// The characters with Unicode's `White_Space` property.
pub open spec fn is_space(c: char) -> bool {
    let n = c as u32;
    ||| 0x9 <= n <= 0xd
    ||| n == 0x20
    ||| n == 0x85
    ||| n == 0xa0
    ||| n == 0x1680
    ||| 0x2000 <= n <= 0x200a
    ||| n == 0x2028
    ||| n == 0x2029
    ||| n == 0x202f
    ||| n == 0x205f
    ||| n == 0x3000
}

/// Is this character white space?
pub fn is_whitespace(c: char) -> (r: bool)
    ensures
        r == is_space(c),
{
    let n: u32 = c as u32;
    (0x9 <= n && n <= 0xd) || n == 0x20 || n == 0x85 || n == 0xa0 || n == 0x1680 || (0x2000 <= n
        && n <= 0x200a) || n == 0x2028 || n == 0x2029 || n == 0x202f || n == 0x205f || n == 0x3000
}

/// The text without the white space at its start.
pub open spec fn trim_start(s: Seq<char>) -> Seq<char>
    decreases s.len(),
{
    if s.len() > 0 && is_space(s[0]) {
        trim_start(s.drop_first())
    } else {
        s
    }
}

/// The text without the white space at its end.
pub open spec fn trim_end(s: Seq<char>) -> Seq<char>
    decreases s.len(),
{
    if s.len() > 0 && is_space(s.last()) {
        trim_end(s.drop_last())
    } else {
        s
    }
}

/// The text without the white space around it.
pub open spec fn trimmed(s: Seq<char>) -> Seq<char> {
    trim_end(trim_start(s))
}

/// Trimmed text begins and ends with something else than white space.
proof fn lemma_trim_end(s: Seq<char>)
    ensures
        trim_end(s).len() <= s.len(),
        trim_end(s) == s.take(trim_end(s).len() as int),
        trim_end(s).len() > 0 ==> !is_space(trim_end(s).last()),
    decreases s.len(),
{
    if s.len() > 0 && is_space(s.last()) {
        lemma_trim_end(s.drop_last());
        assert(trim_end(s) =~= s.take(trim_end(s).len() as int));
    } else {
        assert(s.take(s.len() as int) =~= s);
    }
}

/// What `trim_start` leaves does not begin with white space.
proof fn lemma_trim_start(s: Seq<char>)
    ensures
        trim_start(s).len() > 0 ==> !is_space(trim_start(s)[0]),
    decreases s.len(),
{
    if s.len() > 0 && is_space(s[0]) {
        lemma_trim_start(s.drop_first());
    }
}

/// Trimming twice changes no more than trimming once.
pub proof fn lemma_trimmed_again(s: Seq<char>)
    ensures
        trimmed(trimmed(s)) == trimmed(s),
{
    lemma_trim_start(s);
    lemma_trim_end(trim_start(s));
    let t = trimmed(s);
    if t.len() > 0 {
        assert(t[0] == trim_start(s)[0]);
    }
}

/// White space in front of a text is trimmed away.
pub proof fn lemma_trim_start_of(before: Seq<char>, rest: Seq<char>)
    requires
        forall|i: int| 0 <= i < before.len() ==> is_space(#[trigger] before[i]),
    ensures
        trim_start(before + rest) == trim_start(rest),
    decreases before.len(),
{
    if before.len() > 0 {
        let tail = before.drop_first();
        assert(is_space(before[0]));
        assert((before + rest).drop_first() =~= tail + rest);
        assert forall|i: int| 0 <= i < tail.len() implies is_space(#[trigger] tail[i]) by {
            assert(tail[i] == before[i + 1]);
        }
        lemma_trim_start_of(tail, rest);
    } else {
        assert(before + rest =~= rest);
    }
}

/// White space behind a text is trimmed away.
pub proof fn lemma_trim_end_of(rest: Seq<char>, after: Seq<char>)
    requires
        forall|i: int| 0 <= i < after.len() ==> is_space(#[trigger] after[i]),
    ensures
        trim_end(rest + after) == trim_end(rest),
    decreases after.len(),
{
    if after.len() > 0 {
        let head = after.drop_last();
        assert(is_space(after[after.len() - 1]));
        assert((rest + after).drop_last() =~= rest + head);
        assert forall|i: int| 0 <= i < head.len() implies is_space(#[trigger] head[i]) by {
            assert(head[i] == after[i]);
        }
        lemma_trim_end_of(rest, head);
    } else {
        assert(rest + after =~= rest);
    }
}

/// Takes the white space off both ends.
pub fn trim(s: &str) -> (r: String)
    ensures
        r@ == trimmed(s@),
{
    let cs = chars_of(s);
    let mut from: usize = 0;
    assert(cs@.skip(0) == s@);
    while from < cs.len() && is_whitespace(cs[from])
        invariant
            from <= cs@.len(),
            cs@ == s@,
            trim_start(s@) == trim_start(cs@.skip(from as int)),
        decreases cs@.len() - from,
    {
        assert(cs@.skip(from as int).drop_first() == cs@.skip(from + 1));
        from = from + 1;
    }
    let mut to: usize = cs.len();
    assert(cs@.subrange(from as int, to as int) == cs@.skip(from as int));
    while from < to && is_whitespace(cs[to - 1])
        invariant
            from <= to <= cs@.len(),
            trimmed(s@) == trim_end(cs@.subrange(from as int, to as int)),
        decreases to - from,
    {
        assert(cs@.subrange(from as int, to as int).drop_last() == cs@.subrange(
            from as int,
            to - 1,
        ));
        to = to - 1;
    }
    string_of(&cs, from, to)
}

/// How many characters come before the first white space (all of them if there is none).
pub open spec fn word_len(s: Seq<char>) -> nat
    decreases s.len(),
{
    if s.len() == 0 || is_space(s[0]) {
        0
    } else {
        1 + word_len(s.drop_first())
    }
}

/// A word ends no later than its text.
pub proof fn lemma_word_len(s: Seq<char>)
    ensures
        word_len(s) <= s.len(),
        s.len() > 0 && !is_space(s[0]) ==> word_len(s) > 0,
    decreases s.len(),
{
    if s.len() > 0 && !is_space(s[0]) {
        lemma_word_len(s.drop_first());
    }
}

/// The words of a text: its longest runs without white space, in order.
pub open spec fn words(s: Seq<char>) -> Seq<Seq<char>>
    decreases s.len(),
{
    if s.len() == 0 {
        Seq::empty()
    } else if is_space(s[0]) {
        words(s.drop_first())
    } else {
        proof {
            lemma_word_len(s);
        }
        seq![s.take(word_len(s) as int)] + words(s.skip(word_len(s) as int))
    }
}

/// Splits a text at its white space.
pub fn split_words(s: &str) -> (r: Vec<String>)
    ensures
        texts(r@) == words(s@),
{
    let cs = chars_of(s);
    let mut r: Vec<String> = Vec::new();
    let mut at: usize = 0;
    assert(cs@.skip(0) == s@);
    while at < cs.len()
        invariant
            at <= cs@.len(),
            cs@ == s@,
            texts(r@) + words(cs@.skip(at as int)) == words(s@),
        decreases cs@.len() - at,
    {
        let ghost rest = cs@.skip(at as int);
        if is_whitespace(cs[at]) {
            assert(rest.drop_first() == cs@.skip(at + 1));
            at = at + 1;
        } else {
            let mut end: usize = at;
            proof {
                lemma_word_len(rest);
            }
            while end < cs.len() && !is_whitespace(cs[end])
                invariant
                    at <= end <= cs@.len(),
                    cs@ == s@,
                    word_len(cs@.skip(at as int)) == (end - at) + word_len(cs@.skip(end as int)),
                decreases cs@.len() - end,
            {
                assert(cs@.skip(end as int).drop_first() == cs@.skip(end + 1));
                end = end + 1;
            }
            let ghost n = word_len(rest);
            assert(rest.take(n as int) == cs@.subrange(at as int, end as int));
            assert(rest.skip(n as int) == cs@.skip(end as int));
            let word = string_of(&cs, at, end);
            let ghost before = r@;
            r.push(word);
            assert(texts(r@) == texts(before).push(word@));
            assert(texts(before).push(word@) + words(cs@.skip(end as int)) == texts(before) + (
            seq![word@] + words(cs@.skip(end as int))));
            at = end;
        }
    }
    assert(cs@.skip(at as int).len() == 0);
    assert(texts(r@) + Seq::<Seq<char>>::empty() == texts(r@));
    r
}

/// How many characters come before the first `c` (all of them if there is none).
pub open spec fn until(s: Seq<char>, c: char) -> nat
    decreases s.len(),
{
    if s.len() == 0 || s[0] == c {
        0
    } else {
        1 + until(s.drop_first(), c)
    }
}

/// The pieces of a text between the separators `c`; a text without `c` is one piece.
pub open spec fn pieces(s: Seq<char>, c: char) -> Seq<Seq<char>>
    decreases s.len(),
{
    let n = until(s, c) as int;
    if n < s.len() {
        seq![s.take(n)] + pieces(s.skip(n + 1), c)
    } else {
        seq![s]
    }
}

/// Splits a text at each `c`.
pub fn split(s: &str, c: char) -> (r: Vec<String>)
    ensures
        texts(r@) == pieces(s@, c),
        r@.len() > 0,
{
    let cs = chars_of(s);
    let mut r: Vec<String> = Vec::new();
    let mut start: usize = 0;
    let mut at: usize = 0;
    assert(cs@.skip(0) == s@);
    while at < cs.len()
        invariant
            start <= at <= cs@.len(),
            cs@ == s@,
            texts(r@) + pieces(cs@.skip(start as int), c) == pieces(s@, c),
            until(cs@.skip(start as int), c) == (at - start) + until(cs@.skip(at as int), c),
        decreases cs@.len() - at,
    {
        let ghost rest = cs@.skip(start as int);
        if cs[at] == c {
            let piece = string_of(&cs, start, at);
            assert(until(cs@.skip(at as int), c) == 0);
            assert(rest.take(at - start) == piece@);
            assert(rest.skip(at - start + 1) == cs@.skip(at + 1));
            let ghost before = r@;
            r.push(piece);
            assert(texts(r@) == texts(before).push(piece@));
            assert(texts(before).push(piece@) + pieces(cs@.skip(at + 1), c) == texts(before) + (
            seq![piece@] + pieces(cs@.skip(at + 1), c)));
            start = at + 1;
        } else {
            assert(cs@.skip(at as int).drop_first() == cs@.skip(at + 1));
        }
        at = at + 1;
    }
    let piece = string_of(&cs, start, at);
    assert(cs@.skip(start as int) == piece@);
    let ghost before = r@;
    r.push(piece);
    assert(texts(r@) == texts(before) + seq![piece@]);
    r
}

/// The text without the characters `c` at its start.
pub open spec fn strip_leading(s: Seq<char>, c: char) -> Seq<char>
    decreases s.len(),
{
    if s.len() > 0 && s[0] == c {
        strip_leading(s.drop_first(), c)
    } else {
        s
    }
}

/// Takes every `c` off the start of a text.
pub fn trim_leading(s: &str, c: char) -> (r: String)
    ensures
        r@ == strip_leading(s@, c),
{
    let cs = chars_of(s);
    let mut from: usize = 0;
    assert(cs@.skip(0) == s@);
    while from < cs.len() && cs[from] == c
        invariant
            from <= cs@.len(),
            cs@ == s@,
            strip_leading(s@, c) == strip_leading(cs@.skip(from as int), c),
        decreases cs@.len() - from,
    {
        assert(cs@.skip(from as int).drop_first() == cs@.skip(from + 1));
        from = from + 1;
    }
    let n: usize = cs.len();
    assert(cs@.subrange(from as int, n as int) == cs@.skip(from as int));
    string_of(&cs, from, n)
}

/// Does the text begin with the characters of `prefix`?
pub fn starts_with(s: &str, prefix: &str) -> (r: bool)
    ensures
        r == prefix@.is_prefix_of(s@),
{
    let cs = chars_of(s);
    let ps = chars_of(prefix);
    if ps.len() > cs.len() {
        return false;
    }
    let mut i: usize = 0;
    while i < ps.len()
        invariant
            i <= ps@.len() <= cs@.len(),
            cs@ == s@,
            ps@ == prefix@,
            cs@.take(i as int) == ps@.take(i as int),
        decreases ps@.len() - i,
    {
        if cs[i] != ps[i] {
            assert(cs@.take(ps@.len() as int)[i as int] != ps@[i as int]);
            return false;
        }
        assert(cs@.take(i + 1) == cs@.take(i as int).push(cs@[i as int]));
        assert(ps@.take(i + 1) == ps@.take(i as int).push(ps@[i as int]));
        i = i + 1;
    }
    assert(ps@.take(i as int) == ps@);
    true
}

/// Does the text hold the character `c`?
pub fn has_char(s: &str, c: char) -> (r: bool)
    ensures
        r == s@.contains(c),
{
    let cs = chars_of(s);
    let mut i: usize = 0;
    while i < cs.len()
        invariant
            i <= cs@.len(),
            cs@ == s@,
            forall|j: int| 0 <= j < i ==> cs@[j] != c,
        decreases cs@.len() - i,
    {
        if cs[i] == c {
            return true;
        }
        i = i + 1;
    }
    false
}

/// How Rust's `{:?}` writes a text: in double quotes, with escapes.
pub uninterp spec fn debug_text(s: Seq<char>) -> Seq<char>;

/// `format!("{:?}", s)` for a string: the text that `debug_text` names. Which characters are
/// escaped, and how, is left unsaid: it follows the tables of the standard library.
#[verifier::external_body]
pub(crate) fn quote(s: &str) -> (r: String)
    ensures
        r@ == debug_text(s@),
{
    format!("{:?}", s)
}

/// The character for one decimal digit.
pub open spec fn digit_char(d: nat) -> char {
    (48 + d) as char
}

/// A number written in decimal, without leading zeros.
pub open spec fn decimal(n: nat) -> Seq<char>
    decreases n,
{
    if n < 10 {
        seq![digit_char(n)]
    } else {
        decimal(n / 10).push(digit_char(n % 10))
    }
}

/// Writes a number in decimal.
pub fn to_decimal(n: u64) -> (r: String)
    ensures
        r@ == decimal(n as nat),
    decreases n,
{
    let d: u8 = (n % 10) as u8;
    let mut r = if n < 10 {
        String::new()
    } else {
        to_decimal(n / 10)
    };
    r.push((48 + d) as char);
    r
}

/// A signed number written in decimal.
pub open spec fn signed_decimal(n: int) -> Seq<char> {
    if n < 0 {
        seq!['-'] + decimal((-n) as nat)
    } else {
        decimal(n as nat)
    }
}

/// Writes a signed number in decimal.
pub fn to_signed_decimal(n: i32) -> (r: String)
    ensures
        r@ == signed_decimal(n as int),
{
    if n < 0 {
        let mut r = String::new();
        r.push('-');
        let digits = to_decimal((-(n as i64)) as u64);
        r.append(digits.as_str());
        assert(r@ =~= seq!['-'] + decimal((-n) as nat));
        r
    } else {
        to_decimal(n as u64)
    }
}

/// Is this character one of `0` to `9`?
pub open spec fn is_digit(c: char) -> bool {
    48 <= c as u32 <= 57
}

/// The number that decimal digits stand for.
pub open spec fn digits_value(s: Seq<char>) -> nat
    decreases s.len(),
{
    if s.len() == 0 {
        0
    } else {
        (digits_value(s.drop_last()) * 10 + (s.last() as u32 - 48)) as nat
    }
}

/// The digits of a written number: one `+` may stand before them.
pub open spec fn unsigned_digits(s: Seq<char>) -> Seq<char> {
    if s.len() > 0 && s[0] == '+' {
        s.drop_first()
    } else {
        s
    }
}

/// The number that a text stands for, if it is an optional `+` and one or more digits.
pub open spec fn number(s: Seq<char>) -> Option<nat> {
    let d = unsigned_digits(s);
    if d.len() > 0 && (forall|i: int| 0 <= i < d.len() ==> is_digit(#[trigger] d[i])) {
        Some(digits_value(d))
    } else {
        None
    }
}

/// More digits never make a smaller number.
proof fn lemma_digits_grow(s: Seq<char>, n: int)
    requires
        0 <= n <= s.len(),
        forall|i: int| 0 <= i < s.len() ==> is_digit(#[trigger] s[i]),
    ensures
        digits_value(s.take(n)) <= digits_value(s),
    decreases s.len() - n,
{
    if n < s.len() {
        let next = s.take(n + 1);
        assert(next.drop_last() == s.take(n));
        assert(is_digit(s[n]));
        assert(digits_value(s.take(n)) <= digits_value(next));
        lemma_digits_grow(s, n + 1);
    } else {
        assert(s.take(n) == s);
    }
}

/// Reads a number that fits `usize`; anything else is no number.
pub fn parse_usize(s: &str) -> (r: Option<usize>)
    ensures
        r == (match number(s@) {
            Some(n) => if n <= usize::MAX {
                Some(n as usize)
            } else {
                None
            },
            None => None,
        }),
{
    let cs = chars_of(s);
    let start: usize = if cs.len() > 0 && cs[0] == '+' {
        1
    } else {
        0
    };
    let ghost d = unsigned_digits(s@);
    assert(d == cs@.skip(start as int));
    if start == cs.len() {
        return None;
    }
    let mut at: usize = start;
    let mut value: usize = 0;
    let mut fits = true;
    while at < cs.len()
        invariant
            start <= at <= cs@.len(),
            d == cs@.skip(start as int),
            forall|i: int| 0 <= i < at - start ==> is_digit(#[trigger] d[i]),
            fits ==> value == digits_value(d.take(at - start)),
            !fits ==> digits_value(d.take(at - start)) > usize::MAX,
            s@ == cs@,
            d == unsigned_digits(s@),
            d.len() > 0,
        decreases cs@.len() - at,
    {
        let c = cs[at];
        let code: u32 = c as u32;
        assert(d[at - start] == c);
        if code < 48 || code > 57 {
            return None;
        }
        let digit: usize = (code - 48) as usize;
        assert(d.take(at - start + 1).drop_last() == d.take(at - start));
        if fits {
            if value > usize::MAX / 10 || value * 10 > usize::MAX - digit {
                fits = false;
            } else {
                value = value * 10 + digit;
            }
        }
        at = at + 1;
    }
    assert(d.take(at - start) == d);
    if fits {
        Some(value)
    } else {
        None
    }
}

/// Lexicographic order by code point: the order of Rust's strings.
pub open spec fn text_le(a: Seq<char>, b: Seq<char>) -> bool
    decreases a.len(),
{
    if a.len() == 0 {
        true
    } else if b.len() == 0 {
        false
    } else if a[0] == b[0] {
        text_le(a.drop_first(), b.drop_first())
    } else {
        (a[0] as u32) < (b[0] as u32)
    }
}

/// Are the texts in order?
pub open spec fn sorted(s: Seq<Seq<char>>) -> bool {
    forall|i: int, j: int| 0 <= i < j < s.len() ==> text_le(#[trigger] s[i], #[trigger] s[j])
}

/// Are the texts in order, each there once?
pub open spec fn strictly_sorted(s: Seq<Seq<char>>) -> bool {
    forall|i: int, j: int|
        0 <= i < j < s.len() ==> text_le(#[trigger] s[i], #[trigger] s[j]) && s[i] != s[j]
}

/// Two texts that are each no later than the other are the same text.
pub proof fn lemma_text_le_antisymmetric(a: Seq<char>, b: Seq<char>)
    requires
        text_le(a, b),
        text_le(b, a),
    ensures
        a == b,
    decreases a.len(),
{
    if a.len() > 0 && b.len() > 0 {
        lemma_text_le_antisymmetric(a.drop_first(), b.drop_first());
        assert(a == seq![a[0]] + a.drop_first());
        assert(b == seq![b[0]] + b.drop_first());
    }
}

/// `<[String]>::sort`: afterwards the strings stand in lexicographic order, and they are the
/// strings that were there before, each as often.
#[verifier::external_body]
fn sort_strings(v: &mut Vec<String>)
    ensures
        sorted(texts(final(v)@)),
        texts(final(v)@).to_multiset() == texts(old(v)@).to_multiset(),
{
    v.sort();
}

/// The same texts in order, each once.
pub open spec fn in_order(s: Seq<Seq<char>>) -> Seq<Seq<char>> {
    choose|r: Seq<Seq<char>>| strictly_sorted(r) && #[trigger] r.to_set() == s.to_set()
}

/// Different characters have different code points.
proof fn lemma_codes_differ(a: char, b: char)
    requires
        a != b,
    ensures
        a as u32 != b as u32,
{
}

/// Of two texts one is no later than the other.
proof fn lemma_text_le_total(a: Seq<char>, b: Seq<char>)
    ensures
        text_le(a, b) || text_le(b, a),
    decreases a.len(),
{
    if a.len() > 0 && b.len() > 0 {
        lemma_text_le_total(a.drop_first(), b.drop_first());
        if a[0] != b[0] {
            lemma_codes_differ(a[0], b[0]);
        }
    }
}

/// What comes no later than a text comes no later than what follows that text.
proof fn lemma_text_le_transitive(a: Seq<char>, b: Seq<char>, c: Seq<char>)
    requires
        text_le(a, b),
        text_le(b, c),
    ensures
        text_le(a, c),
    decreases a.len(),
{
    if a.len() > 0 && b.len() > 0 && c.len() > 0 {
        if a[0] == b[0] && b[0] == c[0] {
            lemma_text_le_transitive(a.drop_first(), b.drop_first(), c.drop_first());
        }
    }
}

/// Texts in order with one more at its place.
spec fn inserted(s: Seq<Seq<char>>, t: Seq<char>) -> Seq<Seq<char>>
    decreases s.len(),
{
    if s.len() == 0 || text_le(t, s[0]) {
        seq![t] + s
    } else {
        seq![s[0]] + inserted(s.drop_first(), t)
    }
}

/// A new text finds its place.
proof fn lemma_inserted(s: Seq<Seq<char>>, t: Seq<char>)
    requires
        strictly_sorted(s),
        !s.contains(t),
    ensures
        strictly_sorted(inserted(s, t)),
        forall|x: Seq<char>| #[trigger]
            inserted(s, t).contains(x) <==> s.contains(x) || x == t,
    decreases s.len(),
{
    let r = inserted(s, t);
    if s.len() == 0 || text_le(t, s[0]) {
        assert forall|i: int, j: int| 0 <= i < j < r.len() implies text_le(
            #[trigger] r[i],
            #[trigger] r[j],
        ) && r[i] != r[j] by {
            assert(r[j] == s[j - 1]);
            assert(s.contains(s[j - 1]));
            if i == 0 && j > 1 {
                assert(text_le(s[0], s[j - 1]));
                lemma_text_le_transitive(t, s[0], s[j - 1]);
            }
        }
        assert forall|x: Seq<char>| #[trigger] r.contains(x) <==> s.contains(x) || x == t by {
            if s.contains(x) {
                let k = choose|k: int| 0 <= k < s.len() && s[k] == x;
                assert(r[k + 1] == x);
            }
            if r.contains(x) {
                let k = choose|k: int| 0 <= k < r.len() && r[k] == x;
                if k > 0 {
                    assert(s[k - 1] == x);
                }
            }
            assert(r[0] == t);
        }
    } else {
        let rest = s.drop_first();
        assert forall|i: int, j: int| 0 <= i < j < rest.len() implies text_le(
            #[trigger] rest[i],
            #[trigger] rest[j],
        ) && rest[i] != rest[j] by {
            assert(rest[i] == s[i + 1] && rest[j] == s[j + 1]);
        }
        assert(!rest.contains(t)) by {
            if rest.contains(t) {
                let k = choose|k: int| 0 <= k < rest.len() && rest[k] == t;
                assert(s[k + 1] == t);
            }
        }
        lemma_inserted(rest, t);
        let tail = inserted(rest, t);
        lemma_text_le_total(t, s[0]);
        assert(s.contains(s[0]));
        assert forall|i: int, j: int| 0 <= i < j < r.len() implies text_le(
            #[trigger] r[i],
            #[trigger] r[j],
        ) && r[i] != r[j] by {
            assert(r[j] == tail[j - 1]);
            assert(tail.contains(tail[j - 1]));
            if i == 0 {
                if rest.contains(tail[j - 1]) {
                    let k = choose|k: int| 0 <= k < rest.len() && rest[k] == tail[j - 1];
                    assert(s[k + 1] == tail[j - 1]);
                }
            } else {
                assert(r[i] == tail[i - 1]);
            }
        }
        assert forall|x: Seq<char>| #[trigger] r.contains(x) <==> s.contains(x) || x == t by {
            if s.contains(x) {
                let k = choose|k: int| 0 <= k < s.len() && s[k] == x;
                if k > 0 {
                    assert(rest[k - 1] == x);
                    assert(tail.contains(x));
                    let m = choose|m: int| 0 <= m < tail.len() && tail[m] == x;
                    assert(r[m + 1] == x);
                } else {
                    assert(r[0] == x);
                }
            }
            if x == t {
                assert(tail.contains(t));
                let m = choose|m: int| 0 <= m < tail.len() && tail[m] == t;
                assert(r[m + 1] == t);
            }
            if r.contains(x) {
                let k = choose|k: int| 0 <= k < r.len() && r[k] == x;
                if k > 0 {
                    assert(tail[k - 1] == x);
                    assert(tail.contains(x));
                    if rest.contains(x) {
                        let m = choose|m: int| 0 <= m < rest.len() && rest[m] == x;
                        assert(s[m + 1] == x);
                    }
                }
            }
        }
    }
}

/// Texts in order, each once, that are the texts of a list.
proof fn lemma_some_order(s: Seq<Seq<char>>) -> (r: Seq<Seq<char>>)
    ensures
        strictly_sorted(r),
        r.to_set() == s.to_set(),
    decreases s.len(),
{
    if s.len() == 0 {
        s
    } else {
        let before = s.drop_last();
        let q = lemma_some_order(before);
        let r = if q.contains(s.last()) {
            q
        } else {
            lemma_inserted(q, s.last());
            inserted(q, s.last())
        };
        assert(r.to_set() =~= s.to_set()) by {
            assert forall|x: Seq<char>| r.contains(x) <==> #[trigger] s.contains(x) by {
                assert(q.to_set().contains(x) == q.contains(x));
                assert(before.to_set().contains(x) == before.contains(x));
                if s.contains(x) {
                    let k = choose|k: int| 0 <= k < s.len() && s[k] == x;
                    if k < before.len() {
                        assert(before[k] == x);
                    }
                }
                if before.contains(x) {
                    let k = choose|k: int| 0 <= k < before.len() && before[k] == x;
                    assert(s[k] == x);
                }
                assert(s[s.len() - 1] == s.last());
            }
        }
        r
    }
}

/// Every list of texts can be put in order, and what is in order has the same texts.
pub proof fn lemma_in_order(s: Seq<Seq<char>>)
    ensures
        strictly_sorted(in_order(s)),
        in_order(s).to_set() == s.to_set(),
{
    let r = lemma_some_order(s);
    assert(strictly_sorted(r) && r.to_set() == s.to_set());
}

/// There is only one way to put texts in order, each once.
pub proof fn lemma_one_order(a: Seq<Seq<char>>, b: Seq<Seq<char>>)
    requires
        strictly_sorted(a),
        strictly_sorted(b),
        a.to_set() == b.to_set(),
    ensures
        a == b,
    decreases a.len(),
{
    assert forall|t: Seq<char>| a.contains(t) <==> #[trigger] b.contains(t) by {
        assert(a.to_set().contains(t) == a.contains(t));
        assert(b.to_set().contains(t) == b.contains(t));
    }
    if a.len() == 0 {
        if b.len() > 0 {
            assert(b.contains(b[0]));
        }
        assert(a =~= b);
    } else {
        assert(a.contains(a[a.len() - 1]));
        assert(b.contains(a.last()));
        let i = choose|i: int| 0 <= i < b.len() && b[i] == a.last();
        assert(b.contains(b[b.len() - 1]));
        assert(a.contains(b.last()));
        let j = choose|j: int| 0 <= j < a.len() && a[j] == b.last();
        if i < b.len() - 1 {
            assert(text_le(b[i], b.last()));
            if j < a.len() - 1 {
                assert(text_le(a[j], a.last()));
                lemma_text_le_antisymmetric(a.last(), b.last());
            }
        }
        assert(a.last() == b.last());
        let c = a.drop_last();
        let d = b.drop_last();
        assert(c.to_set() =~= d.to_set()) by {
            assert forall|t: Seq<char>| c.contains(t) <==> #[trigger] d.contains(t) by {
                if c.contains(t) {
                    let k = choose|k: int| 0 <= k < c.len() && c[k] == t;
                    assert(a[k] == t && a[k] != a.last());
                    assert(b.contains(t));
                    let m = choose|m: int| 0 <= m < b.len() && b[m] == t;
                    assert(d[m] == t);
                }
                if d.contains(t) {
                    let k = choose|k: int| 0 <= k < d.len() && d[k] == t;
                    assert(b[k] == t && b[k] != b.last());
                    assert(b.contains(t));
                    assert(a.contains(t));
                    let m = choose|m: int| 0 <= m < a.len() && a[m] == t;
                    assert(c[m] == t);
                }
            }
        }
        lemma_one_order(c, d);
        assert(a =~= c.push(a.last()));
        assert(b =~= d.push(b.last()));
    }
}

/// Sorts a list of strings and keeps each string once.
pub fn sort_and_dedup(v: Vec<String>) -> (r: Vec<String>)
    ensures
        texts(r@) == in_order(texts(v@)),
        strictly_sorted(texts(r@)),
        texts(r@).to_set() == texts(v@).to_set(),
{
    broadcast use vstd::seq_lib::group_to_multiset_ensures;

    let mut all = v;
    sort_strings(&mut all);
    let ghost full = texts(all@);
    assert(full.to_set() == texts(v@).to_set()) by {
        assert forall|t: Seq<char>| full.contains(t) <==> #[trigger] texts(v@).contains(t) by {
            assert(full.to_multiset().count(t) == texts(v@).to_multiset().count(t));
        }
    }
    let mut r: Vec<String> = Vec::new();
    let mut i: usize = 0;
    while i < all.len()
        invariant
            i <= all@.len(),
            full == texts(all@),
            sorted(full),
            strictly_sorted(texts(r@)),
            forall|j: int|
                0 <= j < r@.len() ==> exists|k: int| 0 <= k < i && full[k] == #[trigger] texts(r@)[j],
            forall|k: int| 0 <= k < i ==> texts(r@).contains(#[trigger] full[k]),
            i > 0 ==> r@.len() > 0 && texts(r@).last() == full[i - 1],
        decreases all@.len() - i,
    {
        if i == 0 || all[i] != r[r.len() - 1] {
            let ghost before = texts(r@);
            r.push(all[i].clone());
            assert(texts(r@) == before.push(full[i as int]));
            assert forall|j: int, k: int| 0 <= j < k < r@.len() implies text_le(
                #[trigger] texts(r@)[j],
                #[trigger] texts(r@)[k],
            ) && texts(r@)[j] != texts(r@)[k] by {
                if k == before.len() {
                    let m = choose|m: int| 0 <= m < i && full[m] == before[j];
                    assert(text_le(full[m], full[i as int]));
                    if before[j] == full[i as int] && j < before.len() - 1 {
                        assert(text_le(before[j], before.last()));
                        assert(text_le(full[i - 1], full[i as int]));
                        lemma_text_le_antisymmetric(before[j], before.last());
                    }
                }
            }
            assert forall|k: int| 0 <= k < i + 1 implies texts(r@).contains(
                #[trigger] full[k],
            ) by {
                if k < i {
                    let j = choose|j: int| 0 <= j < before.len() && before[j] == full[k];
                    assert(texts(r@)[j] == full[k]);
                } else {
                    assert(texts(r@)[before.len() as int] == full[k]);
                }
            }
        } else {
            assert(texts(r@).last() == full[i as int]);
        }
        i = i + 1;
    }
    assert(texts(r@).to_set() == full.to_set()) by {
        assert forall|t: Seq<char>| full.contains(t) <==> #[trigger] texts(r@).contains(t) by {}
    }
    proof {
        lemma_one_order(texts(r@), in_order(texts(v@)));
    }
    r
}

/// A text that is white space, then something that neither begins nor ends with white space, then
/// white space, is trimmed to what is in the middle. Every text is of this form.
pub proof fn law_trimming_leaves_the_middle(
    before: Seq<char>,
    middle: Seq<char>,
    after: Seq<char>,
)
    requires
        forall|i: int| 0 <= i < before.len() ==> is_space(#[trigger] before[i]),
        forall|i: int| 0 <= i < after.len() ==> is_space(#[trigger] after[i]),
        middle.len() > 0 ==> !is_space(middle[0]) && !is_space(middle[middle.len() - 1]),
    ensures
        trimmed(before + middle + after) == middle,
{
    let rest = middle + after;
    assert(before + middle + after =~= before + rest);
    lemma_trim_start_of(before, rest);
    if middle.len() > 0 {
        assert(rest[0] == middle[0]);
        lemma_trim_end_of(middle, after);
    } else {
        assert(rest =~= after + Seq::empty());
        lemma_trim_start_of(after, Seq::empty());
        assert(middle =~= Seq::empty());
    }
}

/// White space alone has no words.
pub proof fn law_white_space_has_no_words(s: Seq<char>)
    requires
        forall|i: int| 0 <= i < s.len() ==> is_space(#[trigger] s[i]),
    ensures
        words(s) == Seq::<Seq<char>>::empty(),
    decreases s.len(),
{
    if s.len() > 0 {
        let rest = s.drop_first();
        assert(is_space(s[0]));
        assert forall|i: int| 0 <= i < rest.len() implies is_space(#[trigger] rest[i]) by {
            assert(rest[i] == s[i + 1]);
        }
        law_white_space_has_no_words(rest);
    }
}

/// After white space, what comes up to the next white space or the end is the first word, and the
/// words of the rest follow.
pub proof fn law_words_are_what_stands_between_white_space(
    before: Seq<char>,
    word: Seq<char>,
    rest: Seq<char>,
)
    requires
        forall|i: int| 0 <= i < before.len() ==> is_space(#[trigger] before[i]),
        word.len() > 0,
        forall|i: int| 0 <= i < word.len() ==> !is_space(#[trigger] word[i]),
        rest.len() > 0 ==> is_space(rest[0]),
    ensures
        words(before + word + rest) == seq![word] + words(rest),
    decreases before.len(),
{
    let s = before + word + rest;
    if before.len() > 0 {
        let tail = before.drop_first();
        assert(is_space(before[0]));
        assert forall|i: int| 0 <= i < tail.len() implies is_space(#[trigger] tail[i]) by {
            assert(tail[i] == before[i + 1]);
        }
        assert(s.drop_first() =~= tail + word + rest);
        law_words_are_what_stands_between_white_space(tail, word, rest);
    } else {
        assert(s =~= word + rest);
        lemma_word_len_of(word, rest);
        assert(!is_space(word[0]));
        assert(s.take(word.len() as int) =~= word);
        assert(s.skip(word.len() as int) =~= rest);
    }
}

/// A word is as long as what comes before the next white space.
proof fn lemma_word_len_of(word: Seq<char>, rest: Seq<char>)
    requires
        forall|i: int| 0 <= i < word.len() ==> !is_space(#[trigger] word[i]),
        rest.len() > 0 ==> is_space(rest[0]),
    ensures
        word_len(word + rest) == word.len(),
    decreases word.len(),
{
    let s = word + rest;
    if word.len() > 0 {
        let tail = word.drop_first();
        assert(!is_space(word[0]));
        assert forall|i: int| 0 <= i < tail.len() implies !is_space(#[trigger] tail[i]) by {
            assert(tail[i] == word[i + 1]);
        }
        assert(s.drop_first() =~= tail + rest);
        lemma_word_len_of(tail, rest);
    } else {
        assert(s =~= rest);
    }
}

/// What comes before the first separator is as long as it is.
proof fn lemma_until_of(piece: Seq<char>, rest: Seq<char>, c: char)
    requires
        !piece.contains(c),
        rest.len() > 0 ==> rest[0] == c,
    ensures
        until(piece + rest, c) == piece.len(),
    decreases piece.len(),
{
    let s = piece + rest;
    if piece.len() > 0 {
        let tail = piece.drop_first();
        assert(piece.contains(piece[0]));
        assert(!tail.contains(c)) by {
            if tail.contains(c) {
                let k = choose|k: int| 0 <= k < tail.len() && tail[k] == c;
                assert(piece[k + 1] == c);
            }
        }
        assert(s.drop_first() =~= tail + rest);
        lemma_until_of(tail, rest, c);
    } else {
        assert(s =~= rest);
    }
}

/// A text without the separator is one piece.
pub proof fn law_a_text_without_separator_is_one_piece(s: Seq<char>, c: char)
    requires
        !s.contains(c),
    ensures
        pieces(s, c) == seq![s],
{
    lemma_until_of(s, Seq::empty(), c);
    assert(s + Seq::<char>::empty() =~= s);
}

/// What comes before the first separator is the first piece, and the pieces of what comes after it
/// follow.
pub proof fn law_pieces_are_what_stands_between_separators(
    piece: Seq<char>,
    rest: Seq<char>,
    c: char,
)
    requires
        !piece.contains(c),
    ensures
        pieces(piece + seq![c] + rest, c) == seq![piece] + pieces(rest, c),
{
    let s = piece + seq![c] + rest;
    assert(s =~= piece + (seq![c] + rest));
    lemma_until_of(piece, seq![c] + rest, c);
    assert(s.take(piece.len() as int) =~= piece);
    assert(s.skip(piece.len() as int + 1) =~= rest);
}

/// The pieces of two texts with a separator between them are those of the one and those of the
/// other.
pub proof fn law_pieces_join(a: Seq<char>, b: Seq<char>, c: char)
    ensures
        pieces(a + seq![c] + b, c) == pieces(a, c) + pieces(b, c),
        pieces(a, c).len() > 0,
    decreases a.len(),
{
    if a.contains(c) {
        lemma_until(a, c);
        let n = until(a, c) as int;
        let piece = a.take(n);
        let rest = a.skip(n + 1);
        assert(!piece.contains(c)) by {
            if piece.contains(c) {
                let k = choose|k: int| 0 <= k < piece.len() && piece[k] == c;
                assert(a[k] == c);
            }
        }
        assert(a =~= piece + seq![c] + rest);
        assert(a + seq![c] + b =~= piece + seq![c] + (rest + seq![c] + b));
        law_pieces_are_what_stands_between_separators(piece, rest, c);
        law_pieces_are_what_stands_between_separators(piece, rest + seq![c] + b, c);
        law_pieces_join(rest, b, c);
        assert(seq![piece] + (pieces(rest, c) + pieces(b, c)) =~= (seq![piece] + pieces(rest, c))
            + pieces(b, c));
    } else {
        law_a_text_without_separator_is_one_piece(a, c);
        law_pieces_are_what_stands_between_separators(a, b, c);
    }
}

/// The first separator is where it is found, and none comes before it.
proof fn lemma_until(s: Seq<char>, c: char)
    ensures
        until(s, c) <= s.len(),
        until(s, c) < s.len() ==> s[until(s, c) as int] == c,
        forall|i: int| 0 <= i < until(s, c) ==> s[i] != c,
        s.contains(c) ==> until(s, c) < s.len(),
    decreases s.len(),
{
    if s.len() > 0 && s[0] != c {
        let rest = s.drop_first();
        lemma_until(rest, c);
        if s.contains(c) {
            let k = choose|k: int| 0 <= k < s.len() && s[k] == c;
            assert(rest[k - 1] == c);
        }
        assert forall|i: int| 0 <= i < until(s, c) implies s[i] != c by {
            if i > 0 {
                assert(rest[i - 1] == s[i]);
            }
        }
    }
}

/// Of a text that begins with some `c`, what follows them is left. Every text is of this form.
pub proof fn law_stripping_takes_the_start_off(before: Seq<char>, rest: Seq<char>, c: char)
    requires
        forall|i: int| 0 <= i < before.len() ==> #[trigger] before[i] == c,
        rest.len() > 0 ==> rest[0] != c,
    ensures
        strip_leading(before + rest, c) == rest,
    decreases before.len(),
{
    if before.len() > 0 {
        let tail = before.drop_first();
        assert(before[0] == c);
        assert forall|i: int| 0 <= i < tail.len() implies #[trigger] tail[i] == c by {
            assert(tail[i] == before[i + 1]);
        }
        assert((before + rest).drop_first() =~= tail + rest);
        law_stripping_takes_the_start_off(tail, rest, c);
    } else {
        assert(before + rest =~= rest);
    }
}

/// A number below ten is written as its digit; ten times a number and a digit are written as the
/// number and the digit.
pub proof fn law_decimal_writes_digit_by_digit(n: nat, d: nat)
    requires
        d < 10,
    ensures
        decimal(d).len() == 1,
        decimal(d)[0] as u32 == 48 + d,
        n > 0 ==> decimal(10 * n + d) == decimal(n) + decimal(d),
{
    let c = digit_char(d);
    assert(c as u32 == 48 + d);
    if n > 0 {
        assert((10 * n + d) / 10 == n);
        assert((10 * n + d) % 10 == d);
        assert(decimal(10 * n + d) =~= decimal(n) + decimal(d));
    }
}

/// A negative number is written as a minus and its amount, any other as it is.
pub proof fn law_signed_decimal_writes_the_sign(n: nat)
    ensures
        signed_decimal(n as int) == decimal(n),
        n > 0 ==> signed_decimal(-n) == seq!['-'] + decimal(n),
{
}

/// A digit behind a number makes it ten times as large and adds the digit; a digit alone is itself.
pub proof fn law_numbers_are_read_digit_by_digit(s: Seq<char>, c: char)
    requires
        48 <= c as u32 <= 57,
    ensures
        number(seq![c]) == Some((c as u32 - 48) as nat),
        number(s) matches Some(n) ==> number(s.push(c)) == Some((10 * n + (c as u32 - 48)) as nat),
{
    assert(seq![c].drop_last() =~= Seq::empty());
    assert(c != '+');
    assert(unsigned_digits(seq![c]) == seq![c]);
    assert(digits_value(Seq::empty()) == 0);
    assert(digits_value(seq![c]) == (c as u32 - 48) as nat);
    assert forall|i: int| 0 <= i < seq![c].len() implies is_digit(#[trigger] seq![c][i]) by {
        assert(seq![c][i] == c);
    }
    if number(s) is Some {
        let d = unsigned_digits(s);
        let e = unsigned_digits(s.push(c));
        assert(s.len() > 0);
        assert(e =~= d.push(c));
        assert(e.drop_last() =~= d);
        assert forall|i: int| 0 <= i < e.len() implies is_digit(#[trigger] e[i]) by {
            if i < d.len() {
                assert(is_digit(d[i]));
                assert(e[i] == d[i]);
            }
        }
    }
}

/// One plus before a number changes nothing; nothing else but digits makes a number, and there must
/// be one.
pub proof fn law_only_digits_make_a_number(s: Seq<char>, i: int)
    ensures
        s.len() > 0 && s[0] != '+' ==> number(seq!['+'] + s) == number(s),
        s.len() == 0 ==> number(s) is None && number(seq!['+'] + s) is None,
        0 < i < s.len() && !(48 <= s[i] as u32 <= 57) ==> number(s) is None,
        s.len() > 0 && s[0] != '+' && !(48 <= s[0] as u32 <= 57) ==> number(s) is None,
{
    let plus = seq!['+'] + s;
    assert(plus.drop_first() =~= s);
    let d = unsigned_digits(s);
    if 0 < i < s.len() && !(48 <= s[i] as u32 <= 57) {
        if s[0] == '+' {
            assert(d[i - 1] == s[i]);
            assert(!is_digit(d[i - 1]));
        } else {
            assert(!is_digit(d[i]));
        }
    }
    if s.len() > 0 && s[0] != '+' && !(48 <= s[0] as u32 <= 57) {
        assert(!is_digit(d[0]));
    }
}

/// A number that is written is read back.
pub proof fn law_a_written_number_is_read_back(n: nat)
    ensures
        number(decimal(n)) == Some(n),
    decreases n,
{
    law_decimal_writes_digit_by_digit(n / 10, n % 10);
    let c = digit_char(n % 10);
    assert(c as u32 == 48 + n % 10);
    if n >= 10 {
        law_a_written_number_is_read_back(n / 10);
        law_numbers_are_read_digit_by_digit(decimal(n / 10), c);
    } else {
        law_numbers_are_read_digit_by_digit(seq![], c);
        assert(decimal(n) =~= seq![c]);
    }
}

/// Texts are ordered by the first character in which they differ, and one that another begins with
/// comes before it. Every two texts are of this form.
pub proof fn law_texts_are_ordered_by_their_first_difference(
    common: Seq<char>,
    a: Seq<char>,
    b: Seq<char>,
)
    requires
        a.len() > 0 && b.len() > 0 ==> a[0] != b[0],
    ensures
        text_le(common + a, common + b) <==> a.len() == 0 || (b.len() > 0 && (a[0] as u32) < (
        b[0] as u32)),
    decreases common.len(),
{
    if common.len() > 0 {
        let tail = common.drop_first();
        assert((common + a).drop_first() =~= tail + a);
        assert((common + b).drop_first() =~= tail + b);
        law_texts_are_ordered_by_their_first_difference(tail, a, b);
    } else {
        assert(common + a =~= a);
        assert(common + b =~= b);
    }
}

/// What is put in order holds the same texts, each once, and each no later than those after it.
pub proof fn law_putting_in_order_keeps_each_text_once(s: Seq<Seq<char>>, i: int, j: int)
    requires
        0 <= i < j < in_order(s).len(),
    ensures
        text_le(in_order(s)[i], in_order(s)[j]),
        in_order(s)[i] != in_order(s)[j],
{
    lemma_in_order(s);
}

/// A text is in the ordered list exactly if it was in the list.
pub proof fn law_putting_in_order_loses_nothing(s: Seq<Seq<char>>, t: Seq<char>)
    ensures
        in_order(s).contains(t) <==> s.contains(t),
{
    lemma_in_order(s);
    assert(in_order(s).to_set().contains(t) == in_order(s).contains(t));
    assert(s.to_set().contains(t) == s.contains(t));
}

/// The characters that count as white space, one by one.
pub open spec fn all_white_space() -> Seq<char> {
    seq![
        '\t', '\n', '\u{b}', '\u{c}', '\r', ' ',
        '\u{85}', '\u{a0}', '\u{1680}', '\u{2000}', '\u{2001}', '\u{2002}', '\u{2003}', '\u{2004}',
        '\u{2005}', '\u{2006}', '\u{2007}', '\u{2008}', '\u{2009}', '\u{200a}',
        '\u{2028}', '\u{2029}', '\u{202f}', '\u{205f}', '\u{3000}',
    ]
}

/// These characters are white space, and no others: in particular none that can be seen.
pub proof fn law_white_space_is_what_unicode_lists(c: char)
    ensures
        is_space(c) <==> all_white_space().contains(c),
        0x21 <= c as u32 <= 0x7e ==> !is_space(c),
{
    let all = all_white_space();
    assert(all[0] == '\t');
    assert(all[1] == '\n');
    assert(all[2] == '\u{b}');
    assert(all[3] == '\u{c}');
    assert(all[4] == '\r');
    assert(all[5] == ' ');
    assert(all[6] == '\u{85}');
    assert(all[7] == '\u{a0}');
    assert(all[8] == '\u{1680}');
    assert(all[9] == '\u{2000}');
    assert(all[10] == '\u{2001}');
    assert(all[11] == '\u{2002}');
    assert(all[12] == '\u{2003}');
    assert(all[13] == '\u{2004}');
    assert(all[14] == '\u{2005}');
    assert(all[15] == '\u{2006}');
    assert(all[16] == '\u{2007}');
    assert(all[17] == '\u{2008}');
    assert(all[18] == '\u{2009}');
    assert(all[19] == '\u{200a}');
    assert(all[20] == '\u{2028}');
    assert(all[21] == '\u{2029}');
    assert(all[22] == '\u{202f}');
    assert(all[23] == '\u{205f}');
    assert(all[24] == '\u{3000}');
}

} // verus!
