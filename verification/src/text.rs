//! Text handling of the client: user names, cookies, the login token, the
//! worker count typed by the user, and short forms for display.

use vstd::prelude::*;
use vstd::string::StringSliceAdditionalSpecFns;
use vstd::utf8::is_char_boundary;

verus! {

/// Position of the first `c` in `s`, or the length of `s` when there is none.
pub open spec fn first_index_of(s: Seq<char>, c: char) -> int
    decreases s.len(),
{
    if s.len() == 0 {
        0
    } else if s[0] == c {
        0
    } else {
        1 + first_index_of(s.drop_first(), c)
    }
}

/// The part of `s` before its first `c` (all of `s` when it has none).
pub open spec fn text_before(s: Seq<char>, c: char) -> Seq<char> {
    s.take(first_index_of(s, c))
}

/// `first_index_of` is the first position holding `c`, or the end.
pub proof fn lemma_first_index_of(s: Seq<char>, c: char)
    ensures
        0 <= first_index_of(s, c) <= s.len(),
        forall|j: int| 0 <= j < first_index_of(s, c) ==> s[j] != c,
        first_index_of(s, c) < s.len() ==> s[first_index_of(s, c)] == c,
    decreases s.len(),
{
    if s.len() > 0 && s[0] != c {
        lemma_first_index_of(s.drop_first(), c);
        assert forall|j: int| 0 <= j < first_index_of(s, c) implies s[j] != c by {
            if j > 0 {
                assert(s[j] == s.drop_first()[j - 1]);
            }
        }
    }
}

/// The characterisation of `first_index_of` determines it.
proof fn lemma_first_index_unique(s: Seq<char>, c: char, i: int)
    requires
        0 <= i <= s.len(),
        forall|j: int| 0 <= j < i ==> s[j] != c,
        i < s.len() ==> s[i] == c,
    ensures
        first_index_of(s, c) == i,
{
    lemma_first_index_of(s, c);
    let f = first_index_of(s, c);
    if f < i {
        assert(s[f] == c);
    } else if i < f {
        assert(s[i] != c);
    }
}

/// The text before the first `c` holds no `c`, is a prefix of the text,
/// and cutting it again changes nothing.
pub proof fn lemma_text_before(s: Seq<char>, c: char)
    ensures
        s.take(text_before(s, c).len() as int) == text_before(s, c),
        !text_before(s, c).contains(c),
        text_before(text_before(s, c), c) == text_before(s, c),
        text_before(s, c).len() < s.len() ==> s[text_before(s, c).len() as int] == c,
{
    lemma_first_index_of(s, c);
    let t = text_before(s, c);
    assert forall|j: int| 0 <= j < t.len() implies t[j] != c by {
        assert(t[j] == s[j]);
    }
    lemma_first_index_unique(t, c, t.len() as int);
    assert(t.take(t.len() as int) =~= t);
}

/// The characters of `s`, one by one.
fn chars_of(s: &str) -> (chars: Vec<char>)
    ensures
        chars@ == s@,
{
    let n = s.unicode_len();
    let mut chars: Vec<char> = Vec::new();
    let mut i: usize = 0;
    while i < n
        invariant
            n == s@.len(),
            i <= n,
            chars@ == s@.take(i as int),
        decreases n - i,
    {
        chars.push(s.get_char(i));
        assert(chars@ =~= s@.take(i + 1));
        i = i + 1;
    }
    assert(chars@ =~= s@);
    chars
}

/// The part of `s` before its first `c`.
pub fn prefix_before(s: &str, c: char) -> (prefix: String)
    ensures
        prefix@ == text_before(s@, c),
{
    let chars = chars_of(s);
    let mut i: usize = 0;
    while i < chars.len() && chars[i] != c
        invariant
            chars@ == s@,
            i <= chars@.len(),
            forall|j: int| 0 <= j < i ==> chars@[j] != c,
        decreases chars@.len() - i,
    {
        i = i + 1;
    }
    proof {
        lemma_first_index_unique(s@, c, i as int);
    }
    s.substring_char(0, i).to_owned()
}

/// The user name shown for an account: the part of the e-mail address
/// before the first `@`.
pub fn extract_username(email: &str) -> (username: String)
    ensures
        username@ == text_before(email@, '@'),
{
    prefix_before(email, '@')
}

/// The `name=value` part of a `Set-Cookie` value: what comes before the
/// first `;`.
pub fn cookie_pair(set_cookie: &str) -> (pair: String)
    ensures
        pair@ == text_before(set_cookie@, ';'),
{
    prefix_before(set_cookie, ';')
}

/// The `name=value` parts of the `Set-Cookie` values of a response, in
/// order.
pub fn extract_cookie_pairs(set_cookies: &Vec<String>) -> (pairs: Vec<String>)
    ensures
        pairs@.len() == set_cookies@.len(),
        forall|i: int| 0 <= i < pairs@.len() ==> #[trigger] pairs@[i]@ == text_before(set_cookies@[i]@, ';'),
{
    let mut pairs: Vec<String> = Vec::new();
    let mut i: usize = 0;
    while i < set_cookies.len()
        invariant
            i <= set_cookies@.len(),
            pairs@.len() == i,
            forall|j: int| 0 <= j < i ==> #[trigger] pairs@[j]@ == text_before(set_cookies@[j]@, ';'),
        decreases set_cookies@.len() - i,
    {
        pairs.push(cookie_pair(set_cookies[i].as_str()));
        i = i + 1;
    }
    pairs
}

/// `parts` joined with `sep` between each two neighbours.
pub open spec fn join_with(parts: Seq<Seq<char>>, sep: Seq<char>) -> Seq<char>
    decreases parts.len(),
{
    if parts.len() == 0 {
        Seq::empty()
    } else if parts.len() == 1 {
        parts[0]
    } else {
        join_with(parts.drop_last(), sep) + sep + parts.last()
    }
}

/// The separator of cookies in a `Cookie` header.
pub open spec fn cookie_separator() -> Seq<char> {
    seq![';', ' ']
}

/// The value of the `Cookie` header sent with every request: the stored
/// cookies joined by `"; "`.
pub fn cookie_header(cookies: &Vec<String>) -> (header: String)
    ensures
        header@ == join_with(cookies@.map_values(|c: String| c@), cookie_separator()),
{
    let ghost parts = cookies@.map_values(|c: String| c@);
    let mut header = String::new();
    let mut i: usize = 0;
    while i < cookies.len()
        invariant
            i <= cookies@.len(),
            parts == cookies@.map_values(|c: String| c@),
            header@ == join_with(parts.take(i as int), cookie_separator()),
        decreases cookies@.len() - i,
    {
        assert(parts.take(i + 1).drop_last() =~= parts.take(i as int));
        if i > 0 {
            header.append("; ");
            proof {
                reveal_strlit("; ");
            }
            assert("; "@ =~= cookie_separator());
        } else {
            assert(parts.take(0) =~= Seq::<Seq<char>>::empty());
        }
        header.append(cookies[i].as_str());
        i = i + 1;
    }
    assert(parts.take(cookies@.len() as int) =~= parts);
    header
}

/// The marker that precedes the token in a magic link.
pub open spec fn token_marker() -> Seq<char> {
    seq!['t', 'o', 'k', 'e', 'n', '=']
}

/// The token marker starts at position `i` of `s`.
pub open spec fn marker_at(s: Seq<char>, i: int) -> bool {
    &&& 0 <= i
    &&& i + 6 <= s.len()
    &&& s.subrange(i, i + 6) == token_marker()
}

/// Start of the last token marker in `s`, or -1 when there is none.
pub open spec fn last_marker(s: Seq<char>) -> int
    decreases s.len(),
{
    if s.len() < 6 {
        -1
    } else if marker_at(s, s.len() - 6) {
        s.len() - 6
    } else {
        last_marker(s.drop_last())
    }
}

/// The token given by what the user pasted: the text after the last
/// `token=` when there is one (as for a magic link), else all of it.
pub open spec fn token_of(input: Seq<char>) -> Seq<char> {
    if last_marker(input) >= 0 {
        input.skip(last_marker(input) + 6)
    } else {
        input
    }
}

/// `last_marker` is the last position where the marker starts, and -1
/// only when it starts nowhere.
pub proof fn lemma_last_marker(s: Seq<char>)
    ensures
        last_marker(s) == -1 ==> forall|i: int| !#[trigger] marker_at(s, i),
        last_marker(s) != -1 ==> marker_at(s, last_marker(s)),
        forall|i: int| i > last_marker(s) ==> !#[trigger] marker_at(s, i),
    decreases s.len(),
{
    if s.len() >= 6 && !marker_at(s, s.len() - 6) {
        let t = s.drop_last();
        lemma_last_marker(t);
        assert forall|i: int| 0 <= i && i + 6 <= t.len() implies (marker_at(s, i) <==> #[trigger] marker_at(t, i)) by {
            assert(s.subrange(i, i + 6) =~= t.subrange(i, i + 6));
        }
        assert forall|i: int| i > last_marker(s) implies !#[trigger] marker_at(s, i) by {
            if 0 <= i && i + 6 <= t.len() {
                assert(!marker_at(t, i));
            }
        }
        if last_marker(s) == -1 {
            assert forall|i: int| !#[trigger] marker_at(s, i) by {
                if 0 <= i && i + 6 <= t.len() {
                    assert(!marker_at(t, i));
                }
            }
        }
    }
}

/// Whether the marker ends at position `end` of `chars`.
fn marker_ends_at(chars: &Vec<char>, end: usize) -> (found: bool)
    requires
        6 <= end <= chars@.len(),
    ensures
        found == marker_at(chars@, end - 6),
{
    let s = end - 6;
    let found = chars[s] == 't' && chars[s + 1] == 'o' && chars[s + 2] == 'k' && chars[s + 3] == 'e'
        && chars[s + 4] == 'n' && chars[s + 5] == '=';
    assert(found == (chars@.subrange(s as int, s + 6) =~= token_marker()));
    found
}

/// The login token in what the user pasted: a magic link or the bare
/// token.
pub fn extract_token(input: &str) -> (token: String)
    ensures
        token@ == token_of(input@),
{
    let chars = chars_of(input);
    let mut end: usize = chars.len();
    assert(input@.take(end as int) =~= input@);
    while end >= 6
        invariant
            chars@ == input@,
            end <= chars@.len(),
            last_marker(input@) == last_marker(input@.take(end as int)),
        decreases end,
    {
        let ghost prefix = input@.take(end as int);
        assert(prefix.subrange(end - 6, end as int) =~= input@.subrange(end - 6, end as int));
        if marker_ends_at(&chars, end) {
            assert(last_marker(input@) == end - 6);
            return input.substring_char(end - 6 + 6, chars.len()).to_owned();
        }
        assert(prefix.drop_last() =~= input@.take(end - 1));
        end = end - 1;
    }
    input.to_owned()
}

/// Pasting a bare token (one that holds no `token=`) gives that token.
pub proof fn lemma_bare_token_kept(token: Seq<char>)
    requires
        forall|i: int| !#[trigger] marker_at(token, i),
    ensures
        token_of(token) == token,
{
    lemma_last_marker(token);
    if last_marker(token) != -1 {
        assert(marker_at(token, last_marker(token)));
    }
}

/// Pasting a magic link, any text followed by `token=` and a token that
/// holds no `token=`, gives that token.
pub proof fn lemma_token_from_link(link_head: Seq<char>, token: Seq<char>)
    requires
        forall|i: int| !#[trigger] marker_at(token, i),
    ensures
        token_of(link_head + token_marker() + token) == token,
{
    let head = link_head + token_marker();
    let s = head + token;
    let p = link_head.len() as int;
    assert(head.len() == p + 6);
    lemma_last_marker(s);
    assert(s.subrange(p, p + 6) =~= token_marker()) by {
        assert forall|k: int| 0 <= k < 6 implies s.subrange(p, p + 6)[k] == token_marker()[k] by {
            assert(s[p + k] == head[p + k]);
            assert(head[p + k] == token_marker()[k]);
        }
    }
    assert(marker_at(s, p));
    assert forall|i: int| i > p implies !#[trigger] marker_at(s, i) by {
        lemma_no_marker_after_head(link_head, token, i);
    }
    assert(last_marker(s) == p);
    assert(s.skip(p + 6) =~= token);
}

/// No marker starts inside or after the `token=` that follows `link_head`
/// when the token itself holds none.
proof fn lemma_no_marker_after_head(link_head: Seq<char>, token: Seq<char>, i: int)
    requires
        forall|j: int| !#[trigger] marker_at(token, j),
        i > link_head.len(),
    ensures
        !marker_at(link_head + token_marker() + token, i),
{
    let head = link_head + token_marker();
    let s = head + token;
    let p = link_head.len() as int;
    if marker_at(s, i) {
        let w = s.subrange(i, i + 6);
        assert(w == token_marker());
        if i >= p + 6 {
            let q = i - p - 6;
            assert(token.subrange(q, q + 6) =~= w) by {
                assert forall|k: int| 0 <= k < 6 implies token.subrange(q, q + 6)[k] == w[k] by {
                    assert(w[k] == s[i + k]);
                    assert(s[i + k] == token[q + k]);
                }
            }
            assert(marker_at(token, q));
        } else {
            assert(w[0] == s[i]);
            assert(s[i] == head[i]);
            assert(head[i] == token_marker()[i - p]);
            let m = token_marker();
            assert(m[1] == 'o' && m[2] == 'k' && m[3] == 'e' && m[4] == 'n' && m[5] == '=');
            assert(m[0] == 't');
        }
    }
}

/// `c` is an ASCII decimal digit.
pub open spec fn is_decimal_digit(c: char) -> bool {
    0x30 <= (c as u32) <= 0x39
}

/// The value of a string of decimal digits.
pub open spec fn decimal_value(digits: Seq<char>) -> nat
    decreases digits.len(),
{
    if digits.len() == 0 {
        0
    } else {
        decimal_value(digits.drop_last()) * 10 + ((digits.last() as u32) - 0x30) as nat
    }
}

/// The digits of an unsigned number: the text without one leading `+`.
pub open spec fn unsigned_digits(s: Seq<char>) -> Seq<char> {
    if s.len() > 0 && s[0] == '+' {
        s.drop_first()
    } else {
        s
    }
}

/// `s` is accepted by `usize`'s `FromStr`: an optional `+`, then one or
/// more decimal digits whose value fits in a `usize`.
pub open spec fn parses_as_usize(s: Seq<char>) -> bool {
    parses_as_usize_digits(unsigned_digits(s))
}

/// The number of workers for what the user typed: the number typed when it
/// parses, 2 otherwise (an empty answer too), and never fewer than 1.
pub open spec fn worker_count_of(input: Seq<char>) -> usize {
    let typed: nat = if input.len() > 0 && parses_as_usize(input) {
        decimal_value(unsigned_digits(input))
    } else {
        2
    };
    if typed == 0 {
        1
    } else {
        typed as usize
    }
}

/// A longer string of digits is worth at least as much as its prefix.
proof fn lemma_decimal_value_grows(digits: Seq<char>, k: int)
    requires
        0 <= k <= digits.len(),
        forall|i: int| 0 <= i < digits.len() ==> is_decimal_digit(#[trigger] digits[i]),
    ensures
        decimal_value(digits.take(k)) <= decimal_value(digits),
    decreases digits.len() - k,
{
    if k < digits.len() {
        let next = digits.take(k + 1);
        assert(next.drop_last() =~= digits.take(k));
        assert(is_decimal_digit(digits[k]));
        lemma_decimal_value_grows(digits, k + 1);
    } else {
        assert(digits.take(k) =~= digits);
    }
}

/// Parses a `usize` as `str::parse` does; `None` where it fails.
pub fn parse_usize(s: &str) -> (value: Option<usize>)
    ensures
        value is Some <==> parses_as_usize(s@),
        value matches Some(v) ==> v == decimal_value(unsigned_digits(s@)),
{
    let chars = chars_of(s);
    let start: usize = if chars.len() > 0 && chars[0] == '+' { 1 } else { 0 };
    let ghost digits = unsigned_digits(s@);
    assert(digits =~= chars@.skip(start as int));
    if start >= chars.len() {
        return None;
    }
    let mut value: usize = 0;
    let mut i: usize = start;
    while i < chars.len()
        invariant
            chars@ == s@,
            start <= i <= chars@.len(),
            digits == chars@.skip(start as int),
            digits == unsigned_digits(s@),
            forall|j: int| 0 <= j < i - start ==> is_decimal_digit(#[trigger] digits[j]),
            value == decimal_value(digits.take(i - start)),
        decreases chars@.len() - i,
    {
        let c = chars[i];
        assert(digits[i - start] == c);
        let code = c as u32;
        if !(0x30 <= code && code <= 0x39) {
            assert(!is_decimal_digit(digits[i - start]));
            return None;
        }
        let d = (code - 0x30) as usize;
        assert(digits.take(i + 1 - start).drop_last() =~= digits.take(i - start));
        assert(forall|j: int| 0 <= j < i + 1 - start ==> is_decimal_digit(#[trigger] digits[j]));
        assert(decimal_value(digits.take(i + 1 - start)) == value * 10 + d);
        match value.checked_mul(10) {
            Some(tens) => match tens.checked_add(d) {
                Some(next) => {
                    value = next;
                },
                None => {
                    proof { lemma_overflow_is_final(digits, (i + 1 - start) as int); }
                    return None;
                },
            },
            None => {
                proof { lemma_overflow_is_final(digits, (i + 1 - start) as int); }
                return None;
            },
        }
        i = i + 1;
    }
    assert(digits.take(i - start) =~= digits);
    Some(value)
}

/// Once the digits read so far overflow a `usize`, the whole text does
/// not parse.
proof fn lemma_overflow_is_final(digits: Seq<char>, k: int)
    requires
        0 < k <= digits.len(),
        forall|j: int| 0 <= j < k ==> is_decimal_digit(#[trigger] digits[j]),
        decimal_value(digits.take(k)) > usize::MAX,
    ensures
        !parses_as_usize_digits(digits),
{
    if forall|i: int| 0 <= i < digits.len() ==> is_decimal_digit(#[trigger] digits[i]) {
        lemma_decimal_value_grows(digits, k);
    }
}

/// `digits` are one or more decimal digits whose value fits in a `usize`.
pub open spec fn parses_as_usize_digits(digits: Seq<char>) -> bool {
    &&& digits.len() > 0
    &&& forall|i: int| 0 <= i < digits.len() ==> is_decimal_digit(#[trigger] digits[i])
    &&& decimal_value(digits) <= usize::MAX
}

/// The number of workers for the user's (trimmed) answer.
pub fn parse_worker_count(input: &str) -> (workers: usize)
    ensures
        workers == worker_count_of(input@),
        workers >= 1,
{
    let typed: usize = if input.is_empty() {
        2
    } else {
        match parse_usize(input) {
            Some(n) => n,
            None => 2,
        }
    };
    if typed == 0 {
        1
    } else {
        typed
    }
}

/// Shows at most `max_bytes` bytes of `s`: its first `max_bytes` bytes when
/// it is longer, else all of it.
pub fn display_prefix(s: &str, max_bytes: usize) -> (shown: &str)
    requires
        s.spec_bytes().len() > max_bytes ==> is_char_boundary(s.spec_bytes(), max_bytes as int),
    ensures
        shown.spec_bytes() == (if s.spec_bytes().len() > max_bytes {
            s.spec_bytes().take(max_bytes as int)
        } else {
            s.spec_bytes()
        }),
{
    if s.as_bytes().len() > max_bytes {
        let (head, _) = s.split_at(max_bytes);
        assert(head.spec_bytes() =~= s.spec_bytes().take(max_bytes as int));
        head
    } else {
        s
    }
}

/// `needle` occurs in `hay` starting at position `i`.
pub open spec fn occurs_at(hay: Seq<char>, needle: Seq<char>, i: int) -> bool {
    &&& 0 <= i
    &&& i + needle.len() <= hay.len()
    &&& hay.subrange(i, i + needle.len()) == needle
}

/// `needle` occurs somewhere in `hay`.
pub open spec fn contains_text(hay: Seq<char>, needle: Seq<char>) -> bool {
    exists|i: int| occurs_at(hay, needle, i)
}

/// Whether `needle` occurs in `hay` at position `i`.
fn occurs_at_exec(hay: &Vec<char>, needle: &Vec<char>, i: usize) -> (found: bool)
    requires
        i + needle@.len() <= hay@.len(),
    ensures
        found == occurs_at(hay@, needle@, i as int),
{
    let hay_len = hay.len();
    let mut k: usize = 0;
    while k < needle.len()
        invariant
            hay_len == hay@.len(),
            i + needle@.len() <= hay@.len(),
            k <= needle@.len(),
            forall|j: int| 0 <= j < k ==> hay@[i + j] == needle@[j],
        decreases needle@.len() - k,
    {
        if hay[i + k] != needle[k] {
            assert(hay@.subrange(i as int, i + needle@.len())[k as int] != needle@[k as int]);
            return false;
        }
        k = k + 1;
    }
    assert(hay@.subrange(i as int, i + needle@.len()) =~= needle@);
    true
}

/// Whether `needle` occurs in `hay`, as `str::contains` answers it.
pub fn text_contains(hay: &str, needle: &str) -> (found: bool)
    ensures
        found == contains_text(hay@, needle@),
{
    let h = chars_of(hay);
    let n = chars_of(needle);
    if n.len() > h.len() {
        assert forall|i: int| !occurs_at(hay@, needle@, i) by {}
        return false;
    }
    let last: usize = h.len() - n.len();
    let mut i: usize = 0;
    loop
        invariant
            h@ == hay@,
            n@ == needle@,
            last == h@.len() - n@.len(),
            i <= last,
            forall|j: int| 0 <= j < i ==> !#[trigger] occurs_at(hay@, needle@, j),
        ensures
            forall|j: int| 0 <= j <= last ==> !#[trigger] occurs_at(hay@, needle@, j),
        decreases last - i,
    {
        if occurs_at_exec(&h, &n, i) {
            return true;
        }
        if i == last {
            break;
        }
        i = i + 1;
    }
    assert forall|j: int| !#[trigger] occurs_at(hay@, needle@, j) by {
        if j > last {
            assert(j + needle@.len() > hay@.len());
        }
    }
    false
}

/// The worker count is the number typed, with no upper bound: an optional
/// `+` then decimal digits worth `d`, with `1 <= d <= usize::MAX`, give
/// exactly `d` workers; `0` gives one worker, and an answer that is not
/// such a number (an empty one too) gives two.
pub proof fn lemma_worker_count_is_typed_number(input: Seq<char>)
    ensures
        typed_number(input) && decimal_value(typed_digits(input)) >= 1
            ==> worker_count_of(input) == decimal_value(typed_digits(input)),
        typed_number(input) && decimal_value(typed_digits(input)) == 0 ==> worker_count_of(input) == 1,
        !typed_number(input) ==> worker_count_of(input) == 2,
{
    let digits = typed_digits(input);
    assert(digits == unsigned_digits(input));
    if typed_number(input) {
        assert(parses_as_usize(input));
        assert(input.len() > 0);
    } else {
        assert(!parses_as_usize(input));
    }
}

/// The digits of a typed number: the answer without one leading `+`.
pub open spec fn typed_digits(input: Seq<char>) -> Seq<char> {
    if input.len() > 0 && input[0] == '+' {
        input.drop_first()
    } else {
        input
    }
}

/// The answer is one or more decimal digits, after an optional `+`, worth
/// at most `usize::MAX`.
pub open spec fn typed_number(input: Seq<char>) -> bool {
    let digits = typed_digits(input);
    &&& digits.len() > 0
    &&& forall|i: int| 0 <= i < digits.len() ==> is_decimal_digit(#[trigger] digits[i])
    &&& decimal_value(digits) <= usize::MAX
}

/// The `Cookie` header puts `"; "` between neighbouring cookies and nothing
/// else: no cookies give an empty header, one cookie gives itself, and one
/// more cookie adds `"; "` and that cookie at the end.
pub proof fn lemma_cookie_header_separates(parts: Seq<Seq<char>>, cookie: Seq<char>)
    ensures
        join_with(Seq::<Seq<char>>::empty(), cookie_separator()) == Seq::<char>::empty(),
        join_with(seq![cookie], cookie_separator()) == cookie,
        parts.len() > 0 ==> join_with(parts.push(cookie), cookie_separator())
            == join_with(parts, cookie_separator()) + seq![';', ' '] + cookie,
{
    assert(seq![cookie][0] == cookie);
    if parts.len() > 0 {
        assert(parts.push(cookie).drop_last() =~= parts);
    }
}

/// A needle placed anywhere in a text is found in it, and a needle longer
/// than the text is never found.
pub proof fn lemma_contains_text(head: Seq<char>, needle: Seq<char>, tail: Seq<char>, hay: Seq<char>)
    ensures
        contains_text(head + needle + tail, needle),
        needle.len() > hay.len() ==> !contains_text(hay, needle),
{
    let s = head + needle + tail;
    assert(s.subrange(head.len() as int, (head.len() + needle.len()) as int) =~= needle);
    assert(occurs_at(s, needle, head.len() as int));
}

} // verus!
