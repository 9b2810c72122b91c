//! Text operations on character sequences.
//!
//! Every function is specified over the characters of its arguments, so the
//! contracts of the other modules never speak of byte offsets.

use vstd::prelude::*;
use vstd::string::*;
use vstd::utf8::{decode_utf8, valid_utf8};

verus! {

/// Whether the two texts hold the same characters.
pub fn same_text(a: &str, b: &str) -> (r: bool)
    ensures
        r == (a@ == b@),
{
    a.to_owned() == b.to_owned()
}

/// Whether `s` begins with `prefix`.
pub fn has_prefix(s: &str, prefix: &str) -> (r: bool)
    ensures
        r == prefix@.is_prefix_of(s@),
{
    let n: usize = prefix.unicode_len();
    if n > s.unicode_len() {
        return false;
    }
    same_text(s.substring_char(0, n), prefix)
}

/// What `strip_prefix` leaves of `s`.
pub open spec fn stripped(s: Seq<char>, prefix: Seq<char>) -> Option<Seq<char>> {
    if prefix.is_prefix_of(s) {
        Some(s.skip(prefix.len() as int))
    } else {
        None
    }
}

/// The text behind `prefix`, where `s` begins with it.
pub fn strip_prefix<'a>(s: &'a str, prefix: &str) -> (r: Option<&'a str>)
    ensures
        match r {
            Some(rest) => stripped(s@, prefix@) == Some(rest@),
            None => stripped(s@, prefix@) is None,
        },
{
    if has_prefix(s, prefix) {
        let rest = s.substring_char(prefix.unicode_len(), s.unicode_len());
        assert(rest@ =~= s@.skip(prefix@.len() as int));
        Some(rest)
    } else {
        None
    }
}

/// The two parts of `s` around the first `separator`.
pub open spec fn split_first(s: Seq<char>, separator: char) -> Option<(Seq<char>, Seq<char>)> {
    match s.index_of_first(separator) {
        Some(i) => Some((s.take(i), s.skip(i + 1))),
        None => None,
    }
}

/// The two parts of `s` around the last `separator`.
pub open spec fn split_last(s: Seq<char>, separator: char) -> Option<(Seq<char>, Seq<char>)> {
    match s.index_of_last(separator) {
        Some(i) => Some((s.take(i), s.skip(i + 1))),
        None => None,
    }
}

/// Splits `s` at the first `separator`.
pub fn split_once<'a>(s: &'a str, separator: char) -> (r: Option<(&'a str, &'a str)>)
    ensures
        match r {
            Some((left, right)) => split_first(s@, separator) == Some((left@, right@)),
            None => split_first(s@, separator) is None,
        },
{
    let n: usize = s.unicode_len();
    let mut i: usize = 0;
    proof {
        s@.index_of_first_ensures(separator);
    }
    while i < n
        invariant
            i <= n,
            n == s@.len(),
            forall|j: int| 0 <= j < i ==> s@[j] != separator,
        decreases n - i,
    {
        if s.get_char(i) == separator {
            let left = s.substring_char(0, i);
            let right = s.substring_char(i + 1, n);
            proof {
                s@.index_of_first_ensures(separator);
                assert(s@.contains(separator));
                assert(left@ =~= s@.take(i as int));
                assert(right@ =~= s@.skip(i + 1));
            }
            return Some((left, right));
        }
        i = i + 1;
    }
    None
}

/// Splits `s` at the last `separator`.
pub fn rsplit_once<'a>(s: &'a str, separator: char) -> (r: Option<(&'a str, &'a str)>)
    ensures
        match r {
            Some((left, right)) => split_last(s@, separator) == Some((left@, right@)),
            None => split_last(s@, separator) is None,
        },
{
    let n: usize = s.unicode_len();
    let mut i: usize = n;
    proof {
        s@.index_of_last_ensures(separator);
    }
    while i > 0
        invariant
            i <= n,
            n == s@.len(),
            forall|j: int| i <= j < n ==> s@[j] != separator,
        decreases i,
    {
        i = i - 1;
        if s.get_char(i) == separator {
            let left = s.substring_char(0, i);
            let right = s.substring_char(i + 1, n);
            proof {
                s@.index_of_last_ensures(separator);
                assert(s@.contains(separator));
                assert(left@ =~= s@.take(i as int));
                assert(right@ =~= s@.skip(i + 1));
            }
            return Some((left, right));
        }
    }
    None
}

/// `s` without the run of `c` at its end.
pub open spec fn without_trailing(s: Seq<char>, c: char) -> Seq<char>
    decreases s.len(),
{
    if s.len() > 0 && s.last() == c {
        without_trailing(s.drop_last(), c)
    } else {
        s
    }
}

/// `s` without the run of `c` at its start.
pub open spec fn without_leading(s: Seq<char>, c: char) -> Seq<char>
    decreases s.len(),
{
    if s.len() > 0 && s.first() == c {
        without_leading(s.drop_first(), c)
    } else {
        s
    }
}

/// Drops every `c` at the end of `s`.
pub fn trim_end_matches<'a>(s: &'a str, c: char) -> (r: &'a str)
    ensures
        r@ == without_trailing(s@, c),
{
    let mut n: usize = s.unicode_len();
    proof {
        assert(s@.take(n as int) =~= s@);
    }
    while n > 0 && s.get_char(n - 1) == c
        invariant
            n <= s@.len(),
            without_trailing(s@.take(n as int), c) == without_trailing(s@, c),
        decreases n,
    {
        proof {
            assert(s@.take(n as int).drop_last() =~= s@.take(n - 1));
        }
        n = n - 1;
    }
    s.substring_char(0, n)
}

/// Drops every `c` at the start of `s`.
pub fn trim_start_matches<'a>(s: &'a str, c: char) -> (r: &'a str)
    ensures
        r@ == without_leading(s@, c),
{
    let n: usize = s.unicode_len();
    let mut i: usize = 0;
    proof {
        assert(s@.skip(0) =~= s@);
    }
    while i < n && s.get_char(i) == c
        invariant
            i <= n,
            n == s@.len(),
            without_leading(s@.skip(i as int), c) == without_leading(s@, c),
        decreases n - i,
    {
        proof {
            assert(s@.skip(i as int).drop_first() =~= s@.skip(i + 1));
        }
        i = i + 1;
    }
    let r = s.substring_char(i, n);
    assert(r@ =~= s@.skip(i as int));
    r
}

/// The characters with the Unicode property White_Space.
pub open spec fn white_space(c: char) -> bool {
    let n = c as u32;
    ||| 0x09 <= n <= 0x0D
    ||| n == 0x20
    ||| n == 0x85
    ||| n == 0xA0
    ||| n == 0x1680
    ||| 0x2000 <= n <= 0x200A
    ||| n == 0x2028
    ||| n == 0x2029
    ||| n == 0x202F
    ||| n == 0x205F
    ||| n == 0x3000
}

/// Whether `c` has the Unicode property White_Space.
pub fn is_white_space(c: char) -> (r: bool)
    ensures
        r == white_space(c),
{
    let n: u32 = c as u32;
    (0x09 <= n && n <= 0x0D) || n == 0x20 || n == 0x85 || n == 0xA0 || n == 0x1680 || (0x2000 <= n
        && n <= 0x200A) || n == 0x2028 || n == 0x2029 || n == 0x202F || n == 0x205F || n == 0x3000
}

/// `s` without the white space at its end.
pub open spec fn trimmed_end(s: Seq<char>) -> Seq<char>
    decreases s.len(),
{
    if s.len() > 0 && white_space(s.last()) {
        trimmed_end(s.drop_last())
    } else {
        s
    }
}

/// `s` without the white space at its start.
pub open spec fn trimmed_start(s: Seq<char>) -> Seq<char>
    decreases s.len(),
{
    if s.len() > 0 && white_space(s.first()) {
        trimmed_start(s.drop_first())
    } else {
        s
    }
}

/// `s` without the white space around it.
pub open spec fn trimmed(s: Seq<char>) -> Seq<char> {
    trimmed_end(trimmed_start(s))
}

/// Drops the white space around `s`.
pub fn trim<'a>(s: &'a str) -> (r: &'a str)
    ensures
        r@ == trimmed(s@),
{
    let n: usize = s.unicode_len();
    let mut i: usize = 0;
    proof {
        assert(s@.skip(0) =~= s@);
    }
    while i < n && is_white_space(s.get_char(i))
        invariant
            i <= n,
            n == s@.len(),
            trimmed_start(s@.skip(i as int)) == trimmed_start(s@),
        decreases n - i,
    {
        proof {
            assert(s@.skip(i as int).drop_first() =~= s@.skip(i + 1));
        }
        i = i + 1;
    }
    let ghost rest = s@.skip(i as int);
    let mut k: usize = n;
    proof {
        assert(s@.subrange(i as int, n as int) =~= rest);
    }
    while i < k && is_white_space(s.get_char(k - 1))
        invariant
            i <= k <= n,
            n == s@.len(),
            trimmed_end(s@.subrange(i as int, k as int)) == trimmed_end(rest),
        decreases k,
    {
        proof {
            assert(s@.subrange(i as int, k as int).drop_last() =~= s@.subrange(i as int, k - 1));
        }
        k = k - 1;
    }
    s.substring_char(i, k)
}

/// Trimming keeps every character that is not white space.
pub proof fn lemma_trimmed_keeps(s: Seq<char>, c: char)
    requires
        s.contains(c),
        !white_space(c),
    ensures
        trimmed(s).contains(c),
{
    lemma_trimmed_start_keeps(s, c);
    lemma_trimmed_end_keeps(trimmed_start(s), c);
}

proof fn lemma_trimmed_start_keeps(s: Seq<char>, c: char)
    requires
        s.contains(c),
        !white_space(c),
    ensures
        trimmed_start(s).contains(c),
    decreases s.len(),
{
    if white_space(s.first()) {
        let i = choose|i: int| 0 <= i < s.len() && s[i] == c;
        assert(s.drop_first()[i - 1] == c);
        lemma_trimmed_start_keeps(s.drop_first(), c);
    }
}

proof fn lemma_trimmed_end_keeps(s: Seq<char>, c: char)
    requires
        s.contains(c),
        !white_space(c),
    ensures
        trimmed_end(s).contains(c),
    decreases s.len(),
{
    if white_space(s.last()) {
        let i = choose|i: int| 0 <= i < s.len() && s[i] == c;
        assert(s.drop_last()[i] == c);
        lemma_trimmed_end_keeps(s.drop_last(), c);
    }
}

/// What `String::from_utf8_lossy` makes of `bytes`.
pub uninterp spec fn lossy_text(bytes: Seq<u8>) -> Seq<char>;

/// Calls `String::from_utf8_lossy`. Valid UTF-8 is decoded; in place of every
/// invalid sequence the text holds the replacement character U+FFFD. How many
/// of them stand for an invalid sequence is left to the name of the result.
#[verifier::external_body]
pub(crate) fn from_utf8_lossy(bytes: &[u8]) -> (r: String)
    ensures
        r@ == lossy_text(bytes@),
        valid_utf8(bytes@) ==> r@ == decode_utf8(bytes@),
        !valid_utf8(bytes@) ==> r@.contains('\u{FFFD}'),
{
    String::from_utf8_lossy(bytes).into_owned()
}

/// The ASCII letters and digits.
pub open spec fn ascii_alphanumeric(c: char) -> bool {
    let n = c as u32;
    ||| 0x30 <= n <= 0x39
    ||| 0x41 <= n <= 0x5A
    ||| 0x61 <= n <= 0x7A
}

/// What `char::is_alphanumeric` says of `c`.
pub uninterp spec fn alphanumeric(c: char) -> bool;

/// Calls `char::is_alphanumeric`. Of the ASCII characters these are the letters
/// and the digits; beyond them the Unicode tables decide.
#[verifier::external_body]
pub(crate) fn is_alphanumeric(c: char) -> (r: bool)
    ensures
        r == alphanumeric(c),
        (c as u32) < 0x80 ==> r == ascii_alphanumeric(c),
{
    c.is_alphanumeric()
}

/// The decimal digit `d`.
pub open spec fn digit(d: int) -> char {
    (0x30 + d) as char
}

/// `n` in decimal, without leading zeros.
pub open spec fn decimal_digits(n: nat) -> Seq<char>
    decreases n,
{
    if n < 10 {
        seq![digit(n as int)]
    } else {
        decimal_digits(n / 10).push(digit((n % 10) as int))
    }
}

/// `n` in decimal, with a minus sign where it is negative.
pub open spec fn decimal(n: int) -> Seq<char> {
    if n < 0 {
        seq!['-'] + decimal_digits((-n) as nat)
    } else {
        decimal_digits(n as nat)
    }
}

fn digit_text(d: u64) -> (r: &'static str)
    requires
        d < 10,
    ensures
        r@ == seq![digit(d as int)],
{
    proof {
        reveal_strlit("0");
        reveal_strlit("1");
        reveal_strlit("2");
        reveal_strlit("3");
        reveal_strlit("4");
        reveal_strlit("5");
        reveal_strlit("6");
        reveal_strlit("7");
        reveal_strlit("8");
        reveal_strlit("9");
    }
    if d == 0 {
        "0"
    } else if d == 1 {
        "1"
    } else if d == 2 {
        "2"
    } else if d == 3 {
        "3"
    } else if d == 4 {
        "4"
    } else if d == 5 {
        "5"
    } else if d == 6 {
        "6"
    } else if d == 7 {
        "7"
    } else if d == 8 {
        "8"
    } else {
        "9"
    }
}

/// Writes `n` in decimal.
pub fn unsigned_text(n: u64) -> (r: String)
    ensures
        r@ == decimal(n as int),
    decreases n,
{
    if n < 10 {
        digit_text(n).to_owned()
    } else {
        let mut r = unsigned_text(n / 10);
        let last = digit_text(n % 10);
        let ghost head = r@;
        r.append(last);
        assert(r@ =~= head.push(digit((n % 10) as int)));
        r
    }
}

/// Writes `n` in decimal.
pub fn signed_text(n: i64) -> (r: String)
    ensures
        r@ == decimal(n as int),
{
    if n >= 0 {
        unsigned_text(n as u64)
    } else {
        let magnitude: u64 = (-(n + 1)) as u64 + 1;
        let mut r = "-".to_owned();
        r.append(unsigned_text(magnitude).as_str());
        proof {
            reveal_strlit("-");
            assert("-"@ =~= seq!['-']);
        }
        r
    }
}

/// `left` with `right` behind it.
pub fn join(left: &str, right: &str) -> (r: String)
    ensures
        r@ == left@ + right@,
{
    let mut r = left.to_owned();
    r.append(right);
    r
}

/// `left`, `middle` and `right`, one behind the other.
pub fn join3(left: &str, middle: &str, right: &str) -> (r: String)
    ensures
        r@ == left@ + middle@ + right@,
{
    let mut r = left.to_owned();
    r.append(middle);
    r.append(right);
    r
}

/// The texts of `v`.
pub open spec fn texts(v: Seq<String>) -> Seq<Seq<char>> {
    v.map_values(|s: String| s@)
}

/// The text in `o`.
pub open spec fn text_of(o: Option<String>) -> Option<Seq<char>> {
    match o {
        Some(s) => Some(s@),
        None => None,
    }
}

/// The texts in `o`.
pub open spec fn texts_of(o: Option<Vec<String>>) -> Option<Seq<Seq<char>>> {
    match o {
        Some(v) => Some(texts(v@)),
        None => None,
    }
}

/// Copies the texts of `v`.
pub fn copy_texts(v: &[String]) -> (r: Vec<String>)
    ensures
        texts(r@) == texts(v@),
{
    let mut r: Vec<String> = Vec::new();
    let mut i: usize = 0;
    while i < v.len()
        invariant
            i <= v@.len(),
            r@.len() == i,
            forall|j: int| 0 <= j < i ==> #[trigger] r@[j]@ == v@[j]@,
        decreases v@.len() - i,
    {
        r.push(v[i].as_str().to_owned());
        i = i + 1;
    }
    proof {
        assert(texts(r@) =~= texts(v@));
    }
    r
}

/// Whether `a` and `b` hold the same texts in the same order.
pub fn same_texts(a: &[String], b: &[String]) -> (r: bool)
    ensures
        r == (texts(a@) == texts(b@)),
{
    if a.len() != b.len() {
        proof {
            assert(texts(a@).len() != texts(b@).len());
        }
        return false;
    }
    let mut i: usize = 0;
    while i < a.len()
        invariant
            i <= a@.len(),
            a@.len() == b@.len(),
            forall|j: int| 0 <= j < i ==> #[trigger] a@[j]@ == b@[j]@,
        decreases a@.len() - i,
    {
        if !same_text(a[i].as_str(), b[i].as_str()) {
            proof {
                assert(texts(a@)[i as int] != texts(b@)[i as int]);
            }
            return false;
        }
        i = i + 1;
    }
    proof {
        assert(texts(a@) =~= texts(b@));
    }
    true
}

/// Splitting at the first separator loses nothing: the parts and the separator make
/// up the text, and the separator does not occur before that.
pub proof fn law_split_first_puts_together(s: Seq<char>, separator: char)
    ensures
        match split_first(s, separator) {
            Some((left, right)) => s == left + seq![separator] + right && !left.contains(separator),
            None => !s.contains(separator),
        },
{
    s.index_of_first_ensures(separator);
    if s.contains(separator) {
        let i = s.index_of_first(separator)->0;
        assert(s =~= s.take(i) + seq![separator] + s.skip(i + 1));
    }
}

/// Splitting at the last separator loses nothing: the parts and the separator make
/// up the text, and the separator does not occur behind that.
pub proof fn law_split_last_puts_together(s: Seq<char>, separator: char)
    ensures
        match split_last(s, separator) {
            Some((left, right)) => s == left + seq![separator] + right && !right.contains(
                separator,
            ),
            None => !s.contains(separator),
        },
{
    s.index_of_last_ensures(separator);
    if s.contains(separator) {
        let i = s.index_of_last(separator)->0;
        assert(s =~= s.take(i) + seq![separator] + s.skip(i + 1));
        let right = s.skip(i + 1);
        if right.contains(separator) {
            let j = choose|j: int| 0 <= j < right.len() && right[j] == separator;
            assert(s[i + 1 + j] == separator);
        }
    }
}

/// What is left of a text behind a prefix is what was put behind it.
pub proof fn law_stripped_undoes_prefixing(s: Seq<char>, prefix: Seq<char>, rest: Seq<char>)
    ensures
        stripped(prefix + rest, prefix) == Some(rest),
        stripped(s, prefix) matches Some(left) ==> s == prefix + left,
{
    assert((prefix + rest).skip(prefix.len() as int) =~= rest);
    assert((prefix + rest).take(prefix.len() as int) =~= prefix);
    assert(prefix.is_prefix_of(prefix + rest));
    if prefix.is_prefix_of(s) {
        assert(s =~= prefix + s.skip(prefix.len() as int));
    }
}

/// Dropping a character at the end takes a run of it away and no more.
pub proof fn law_without_trailing_drops_a_run(s: Seq<char>, c: char)
    ensures
        ({
            let w = without_trailing(s, c);
            &&& w.len() <= s.len()
            &&& w == s.take(w.len() as int)
            &&& forall|i: int| w.len() <= i < s.len() ==> s[i] == c
            &&& w.len() > 0 ==> w[w.len() - 1] != c
        }),
    decreases s.len(),
{
    let w = without_trailing(s, c);
    if s.len() > 0 && s.last() == c {
        let front = s.drop_last();
        law_without_trailing_drops_a_run(front, c);
        assert(front.take(w.len() as int) =~= s.take(w.len() as int));
        assert forall|i: int| w.len() <= i < s.len() implies s[i] == c by {
            if i < front.len() {
                assert(front[i] == s[i]);
            }
        }
    } else {
        assert(s.take(s.len() as int) =~= s);
    }
}

/// Dropping a character at the start takes a run of it away and no more.
pub proof fn law_without_leading_drops_a_run(s: Seq<char>, c: char)
    ensures
        ({
            let w = without_leading(s, c);
            &&& w.len() <= s.len()
            &&& w == s.skip(s.len() - w.len())
            &&& forall|i: int| 0 <= i < s.len() - w.len() ==> s[i] == c
            &&& w.len() > 0 ==> w[0] != c
        }),
    decreases s.len(),
{
    let w = without_leading(s, c);
    if s.len() > 0 && s.first() == c {
        let rest = s.drop_first();
        law_without_leading_drops_a_run(rest, c);
        assert(rest.skip(rest.len() - w.len()) =~= s.skip(s.len() - w.len()));
        assert forall|i: int| 0 <= i < s.len() - w.len() implies s[i] == c by {
            if i > 0 {
                assert(rest[i - 1] == s[i]);
            }
        }
    } else {
        assert(s.skip(0) =~= s);
    }
}

proof fn lemma_trimmed_start_is_a_tail(s: Seq<char>)
    ensures
        ({
            let w = trimmed_start(s);
            &&& w.len() <= s.len()
            &&& w == s.skip(s.len() - w.len())
            &&& forall|i: int| 0 <= i < s.len() - w.len() ==> white_space(#[trigger] s[i])
            &&& w.len() > 0 ==> !white_space(w[0])
        }),
    decreases s.len(),
{
    let w = trimmed_start(s);
    if s.len() > 0 && white_space(s.first()) {
        let rest = s.drop_first();
        lemma_trimmed_start_is_a_tail(rest);
        assert(rest.skip(rest.len() - w.len()) =~= s.skip(s.len() - w.len()));
        assert forall|i: int| 0 <= i < s.len() - w.len() implies white_space(#[trigger] s[i]) by {
            if i > 0 {
                assert(rest[i - 1] == s[i]);
            }
        }
    } else {
        assert(s.skip(0) =~= s);
    }
}

proof fn lemma_trimmed_end_is_a_head(s: Seq<char>)
    ensures
        ({
            let w = trimmed_end(s);
            &&& w.len() <= s.len()
            &&& w == s.take(w.len() as int)
            &&& forall|i: int| w.len() <= i < s.len() ==> white_space(#[trigger] s[i])
            &&& w.len() > 0 ==> !white_space(w[w.len() - 1])
        }),
    decreases s.len(),
{
    let w = trimmed_end(s);
    if s.len() > 0 && white_space(s.last()) {
        let front = s.drop_last();
        lemma_trimmed_end_is_a_head(front);
        assert(front.take(w.len() as int) =~= s.take(w.len() as int));
        assert forall|i: int| w.len() <= i < s.len() implies white_space(#[trigger] s[i]) by {
            if i < front.len() {
                assert(front[i] == s[i]);
            }
        }
    } else {
        assert(s.take(s.len() as int) =~= s);
    }
}

/// Trimming cuts the text out between two places: only white space stands outside
/// them, and none at either end inside.
pub proof fn law_trimming_drops_the_white_space_around(s: Seq<char>) -> (cut: (int, int))
    ensures
        0 <= cut.0 <= cut.1 <= s.len(),
        trimmed(s) == s.subrange(cut.0, cut.1),
        forall|i: int| 0 <= i < cut.0 || cut.1 <= i < s.len() ==> white_space(#[trigger] s[i]),
        cut.0 < cut.1 ==> !white_space(s[cut.0]) && !white_space(s[cut.1 - 1]),
{
    let tail = trimmed_start(s);
    let w = trimmed(s);
    lemma_trimmed_start_is_a_tail(s);
    lemma_trimmed_end_is_a_head(tail);
    let a = s.len() - tail.len();
    let b = a + w.len();
    assert(w =~= s.subrange(a, b));
    assert forall|i: int| 0 <= i < a || b <= i < s.len() implies white_space(#[trigger] s[i]) by {
        if i >= b {
            assert(tail[i - a] == s[i]);
        }
    }
    (a, b)
}

/// The number that a text of decimal digits stands for.
pub open spec fn number_of(s: Seq<char>) -> int
    decreases s.len(),
{
    if s.len() == 0 {
        0
    } else {
        10 * number_of(s.drop_last()) + (s.last() as int - 48)
    }
}

proof fn lemma_digits_stand_for_the_number(n: nat)
    ensures
        decimal_digits(n).len() > 0,
        number_of(decimal_digits(n)) == n,
        forall|i: int| 0 <= i < decimal_digits(n).len() ==> 48 <= #[trigger] decimal_digits(n)[i] as int
            <= 57,
        n > 0 ==> decimal_digits(n)[0] as int != 48,
        n == 0 ==> decimal_digits(n).len() == 1,
    decreases n,
{
    reveal_with_fuel(number_of, 2);
    let s = decimal_digits(n);
    if n < 10 {
        assert(s.drop_last() =~= seq![]);
        assert(s.last() as int == 48 + n);
    } else {
        let front = decimal_digits(n / 10);
        lemma_digits_stand_for_the_number(n / 10);
        assert(s.drop_last() =~= front);
        assert(s.last() as int == 48 + n % 10);
        assert forall|i: int| 0 <= i < s.len() implies 48 <= #[trigger] s[i] as int <= 57 by {
            if i < front.len() {
                assert(s[i] == front[i]);
            }
        }
        assert(s[0] == front[0]);
    }
}

/// A number in decimal is made of digits without a leading zero, behind a minus sign
/// where it is negative, and stands for that number.
pub proof fn law_decimal_stands_for_the_number(n: int)
    ensures
        n >= 0 ==> number_of(decimal(n)) == n && (n > 0 ==> decimal(n)[0] as int != 48) && (n == 0
            ==> decimal(n).len() == 1),
        n < 0 ==> decimal(n).len() > 1 && decimal(n)[0] == '-' && number_of(decimal(n).skip(1))
            == -n && decimal(n)[1] as int != 48,
        forall|i: int|
            (if n < 0 {
                1int
            } else {
                0int
            }) <= i < decimal(n).len() ==> 48 <= #[trigger] decimal(n)[i] as int <= 57,
{
    if n >= 0 {
        lemma_digits_stand_for_the_number(n as nat);
    } else {
        let digits = decimal_digits((-n) as nat);
        lemma_digits_stand_for_the_number((-n) as nat);
        assert(decimal(n).skip(1) =~= digits);
        assert forall|i: int| 1 <= i < decimal(n).len() implies 48 <= #[trigger] decimal(n)[i] as int
            <= 57 by {
            assert(decimal(n)[i] == digits[i - 1]);
        }
        assert(decimal(n)[1] == digits[0]);
    }
}

/// What is not there has no text, and what is there has its own.
pub proof fn law_optional_texts_show_what_is_there(
    o: Option<String>,
    v: Option<Vec<String>>,
    i: int,
)
    ensures
        o is None <==> text_of(o) is None,
        o matches Some(s) ==> text_of(o) == Some(s@),
        v is None <==> texts_of(v) is None,
        v matches Some(w) ==> (texts_of(v) matches Some(t) && t.len() == w@.len() && (0 <= i
            < w@.len() ==> t[i] == w@[i]@)),
{
}

} // verus!
