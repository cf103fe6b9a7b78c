//! Operations on text, stated over sequences of characters.
use vstd::prelude::*;
use vstd::string::*;

verus! {

/// Unicode's white space characters.
pub open spec fn spec_is_whitespace(c: char) -> bool {
    ||| '\u{9}' <= c <= '\u{D}'
    ||| c == ' '
    ||| c == '\u{85}'
    ||| c == '\u{A0}'
    ||| c == '\u{1680}'
    ||| '\u{2000}' <= c <= '\u{200A}'
    ||| c == '\u{2028}'
    ||| c == '\u{2029}'
    ||| c == '\u{202F}'
    ||| c == '\u{205F}'
    ||| c == '\u{3000}'
}

/// `s` without leading white space.
pub open spec fn trim_start(s: Seq<char>) -> Seq<char>
    decreases s.len(),
{
    if s.len() > 0 && spec_is_whitespace(s[0]) {
        trim_start(s.skip(1))
    } else {
        s
    }
}

/// `s` without trailing white space.
pub open spec fn trim_end(s: Seq<char>) -> Seq<char>
    decreases s.len(),
{
    if s.len() > 0 && spec_is_whitespace(s.last()) {
        trim_end(s.drop_last())
    } else {
        s
    }
}

/// `s` without leading and trailing white space.
pub open spec fn spec_trim(s: Seq<char>) -> Seq<char> {
    trim_end(trim_start(s))
}

/// `s` without any trailing `c`.
pub open spec fn trim_end_char(s: Seq<char>, c: char) -> Seq<char>
    decreases s.len(),
{
    if s.len() > 0 && s.last() == c {
        trim_end_char(s.drop_last(), c)
    } else {
        s
    }
}

/// The parts of `s` between the separators.
pub open spec fn split_on(s: Seq<char>, separator: char) -> Seq<Seq<char>>
    decreases s.len(),
{
    if s.len() == 0 {
        seq![Seq::<char>::empty()]
    } else {
        let parts = split_on(s.drop_last(), separator);
        if s.last() == separator {
            parts.push(Seq::empty())
        } else {
            parts.drop_last().push(parts.last().push(s.last()))
        }
    }
}

/// The parts with the separator between each two of them.
pub open spec fn join_with(parts: Seq<Seq<char>>, separator: Seq<char>) -> Seq<char>
    decreases parts.len(),
{
    if parts.len() == 0 {
        Seq::empty()
    } else if parts.len() == 1 {
        parts[0]
    } else {
        join_with(parts.drop_last(), separator) + separator + parts.last()
    }
}

pub open spec fn has_prefix(s: Seq<char>, prefix: Seq<char>) -> bool {
    prefix.len() <= s.len() && s.take(prefix.len() as int) == prefix
}

pub open spec fn has_suffix(s: Seq<char>, suffix: Seq<char>) -> bool {
    suffix.len() <= s.len() && s.skip(s.len() - suffix.len()) == suffix
}

/// `s` with each occurrence of `from`, found from the left, replaced.
pub open spec fn replace_all(s: Seq<char>, from: Seq<char>, to: Seq<char>) -> Seq<char>
    recommends
        from.len() > 0,
    decreases s.len(),
{
    if s.len() == 0 {
        Seq::empty()
    } else if from.len() > 0 && has_prefix(s, from) {
        to + replace_all(s.skip(from.len() as int), from, to)
    } else {
        seq![s[0]] + replace_all(s.skip(1), from, to)
    }
}

/// The character of a decimal digit.
pub open spec fn digit_char(d: nat) -> char {
    if d == 0 {
        '0'
    } else if d == 1 {
        '1'
    } else if d == 2 {
        '2'
    } else if d == 3 {
        '3'
    } else if d == 4 {
        '4'
    } else if d == 5 {
        '5'
    } else if d == 6 {
        '6'
    } else if d == 7 {
        '7'
    } else if d == 8 {
        '8'
    } else {
        '9'
    }
}

/// `n` in decimal digits.
pub open spec fn decimal(n: nat) -> Seq<char>
    decreases n,
{
    if n < 10 {
        seq![digit_char(n)]
    } else {
        decimal(n / 10).push(digit_char(n % 10))
    }
}

pub open spec fn is_digit(c: char) -> bool {
    '0' <= c <= '9'
}

/// The number that decimal digits stand for.
pub open spec fn digits_value(s: Seq<char>) -> nat
    decreases s.len(),
{
    if s.len() == 0 {
        0
    } else {
        digits_value(s.drop_last()) * 10 + (s.last() as nat - '0' as nat) as nat
    }
}

/// Why a text is not an unsigned number.
#[derive(Clone, Copy, PartialEq, Eq, Structural, Debug)]
pub enum NumberError {
    Empty,
    InvalidDigit,
    TooLarge,
}

/// The digits of an unsigned number: a single leading plus sign is allowed before them.
pub open spec fn number_digits(s: Seq<char>) -> Seq<char> {
    if s.len() > 1 && s[0] == '+' {
        s.skip(1)
    } else {
        s
    }
}

/// The unsigned number at most `max` that `s` stands for. Of several faults the first one met
/// from the left counts.
pub open spec fn unsigned_number(s: Seq<char>, max: nat) -> Result<nat, NumberError> {
    if s.len() == 0 {
        Err(NumberError::Empty)
    } else {
        digits_number(number_digits(s), max)
    }
}

/// The number that `s` stands for, reading its characters as digits from the left.
pub open spec fn digits_number(s: Seq<char>, max: nat) -> Result<nat, NumberError>
    decreases s.len(),
{
    if s.len() == 0 {
        Ok(0)
    } else {
        match digits_number(s.drop_last(), max) {
            Err(e) => Err(e),
            Ok(n) => if !is_digit(s.last()) {
                Err(NumberError::InvalidDigit)
            } else if digits_value(s) > max {
                Err(NumberError::TooLarge)
            } else {
                Ok(digits_value(s))
            },
        }
    }
}

/// The lines of a text, without their line ends: a line ends with a line feed, which a
/// carriage return may precede; the last line may lack its end.
pub open spec fn text_lines(s: Seq<char>) -> Seq<Seq<char>> {
    let parts = split_on(s, '\n');
    let ended = parts.drop_last().map_values(|line: Seq<char>| without_return(line));
    if parts.last().len() == 0 {
        ended
    } else {
        ended.push(parts.last())
    }
}

pub open spec fn without_return(line: Seq<char>) -> Seq<char> {
    if line.len() > 0 && line.last() == '\r' {
        line.drop_last()
    } else {
        line
    }
}

/// The character sequences of texts.
pub open spec fn texts(v: Seq<String>) -> Seq<Seq<char>> {
    v.map_values(|s: String| s@)
}

/// The beginning of `s` that its first `n` bytes of UTF-8 hold.
pub open spec fn byte_prefix(s: Seq<char>, n: int) -> Seq<char> {
    vstd::utf8::decode_utf8(vstd::utf8::encode_utf8(s).subrange(0, n))
}

/// The number of bytes that an abbreviation of `s` takes.
pub open spec fn abbreviation_len(s: Seq<char>) -> int {
    let n = vstd::utf8::encode_utf8(s).len();
    if n < 8 {
        n as int
    } else {
        8
    }
}

/// Whether the first eight bytes of `s` end with a whole character.
pub open spec fn can_abbreviate(s: Seq<char>) -> bool {
    vstd::utf8::is_char_boundary(vstd::utf8::encode_utf8(s), abbreviation_len(s))
}

/// The first eight bytes of `s`.
pub open spec fn abbreviation(s: Seq<char>) -> Seq<char> {
    byte_prefix(s, abbreviation_len(s))
}

pub fn is_whitespace(c: char) -> (r: bool)
    ensures
        r == spec_is_whitespace(c),
{
    ('\u{9}' <= c && c <= '\u{D}') || c == ' ' || c == '\u{85}' || c == '\u{A0}' || c == '\u{1680}'
        || ('\u{2000}' <= c && c <= '\u{200A}') || c == '\u{2028}' || c == '\u{2029}' || c
        == '\u{202F}' || c == '\u{205F}' || c == '\u{3000}'
}

pub fn same_text(a: &str, b: &str) -> (r: bool)
    ensures
        r == (a@ == b@),
{
    a.to_owned() == b.to_owned()
}

pub fn trim(s: &str) -> (r: String)
    ensures
        r@ == spec_trim(s@),
{
    let n: usize = s.unicode_len();
    let mut from: usize = 0;
    assert(s@.skip(0) == s@);
    while from < n && is_whitespace(s.get_char(from))
        invariant
            n == s@.len(),
            from <= n,
            trim_start(s@) == trim_start(s@.skip(from as int)),
        decreases n - from,
    {
        assert(s@.skip(from as int).skip(1) == s@.skip(from + 1));
        from = from + 1;
    }
    let mut to: usize = n;
    let ghost body = s@.skip(from as int);
    assert(body.take(to - from) == body);
    while to > from && is_whitespace(s.get_char(to - 1))
        invariant
            n == s@.len(),
            from <= to <= n,
            body == s@.skip(from as int),
            trim_end(body) == trim_end(body.take(to - from)),
        decreases to - from,
    {
        assert(body.take(to - from).drop_last() == body.take(to - 1 - from));
        to = to - 1;
    }
    assert(s@.subrange(from as int, to as int) == body.take(to - from));
    s.substring_char(from, to).to_owned()
}

pub fn trim_end_matches(s: &str, c: char) -> (r: String)
    ensures
        r@ == trim_end_char(s@, c),
{
    let mut to: usize = s.unicode_len();
    assert(s@.take(to as int) == s@);
    while to > 0 && s.get_char(to - 1) == c
        invariant
            to <= s@.len(),
            trim_end_char(s@, c) == trim_end_char(s@.take(to as int), c),
        decreases to,
    {
        assert(s@.take(to as int).drop_last() == s@.take(to - 1));
        to = to - 1;
    }
    assert(s@.subrange(0, to as int) == s@.take(to as int));
    s.substring_char(0, to).to_owned()
}

proof fn lemma_split_nonempty(s: Seq<char>, separator: char)
    ensures
        split_on(s, separator).len() > 0,
    decreases s.len(),
{
    if s.len() > 0 {
        lemma_split_nonempty(s.drop_last(), separator);
    }
}

pub fn split(s: &str, separator: char) -> (r: Vec<String>)
    ensures
        texts(r@) == split_on(s@, separator),
        r@.len() > 0,
{
    let n: usize = s.unicode_len();
    let mut parts: Vec<String> = Vec::new();
    let mut start: usize = 0;
    let mut i: usize = 0;
    assert(s@.take(0) == Seq::<char>::empty());
    assert(texts(parts@).push(s@.subrange(0, 0)) =~= split_on(s@.take(0), separator));
    while i < n
        invariant
            n == s@.len(),
            start <= i <= n,
            texts(parts@).push(s@.subrange(start as int, i as int)) =~= split_on(
                s@.take(i as int),
                separator,
            ),
        decreases n - i,
    {
        let c: char = s.get_char(i);
        assert(s@.take(i + 1).drop_last() == s@.take(i as int));
        let ghost before = texts(parts@).push(s@.subrange(start as int, i as int));
        assert(before.drop_last() =~= texts(parts@));
        if c == separator {
            parts.push(s.substring_char(start, i).to_owned());
            start = i + 1;
            assert(texts(parts@) =~= before);
            assert(s@.subrange(start as int, i + 1) =~= Seq::<char>::empty());
        } else {
            assert(s@.subrange(start as int, i + 1) == s@.subrange(start as int, i as int).push(c));
        }
        i = i + 1;
    }
    let ghost before = texts(parts@);
    parts.push(s.substring_char(start, n).to_owned());
    assert(texts(parts@) =~= before.push(s@.subrange(start as int, n as int)));
    assert(s@.take(n as int) == s@);
    parts
}

pub fn join(parts: &Vec<String>, separator: &str) -> (r: String)
    ensures
        r@ == join_with(texts(parts@), separator@),
{
    let mut out: String = String::new();
    let mut i: usize = 0;
    let ghost all = texts(parts@);
    while i < parts.len()
        invariant
            all == texts(parts@),
            i <= parts@.len(),
            out@ == join_with(all.take(i as int), separator@),
        decreases parts@.len() - i,
    {
        if i > 0 {
            out.append(separator);
        }
        out.append(parts[i].as_str());
        assert(all.take(i + 1).drop_last() =~= all.take(i as int));
        assert(all.take(i + 1).last() == parts@[i as int]@);
        i = i + 1;
    }
    assert(all.take(all.len() as int) =~= all);
    out
}

pub fn starts_with(s: &str, prefix: &str) -> (r: bool)
    ensures
        r == has_prefix(s@, prefix@),
{
    let n: usize = prefix.unicode_len();
    if n > s.unicode_len() {
        return false;
    }
    assert(s@.subrange(0, n as int) == s@.take(n as int));
    same_text(s.substring_char(0, n), prefix)
}

pub fn ends_with(s: &str, suffix: &str) -> (r: bool)
    ensures
        r == has_suffix(s@, suffix@),
{
    let n: usize = suffix.unicode_len();
    let m: usize = s.unicode_len();
    if n > m {
        return false;
    }
    assert(s@.subrange(m - n, m as int) == s@.skip(m - n));
    same_text(s.substring_char(m - n, m), suffix)
}

/// Whether the first eight bytes of `s` end with a whole character.
pub fn is_abbreviable(s: &str) -> (r: bool)
    ensures
        r == can_abbreviate(s@),
{
    let len: usize = s.as_bytes().len();
    s.is_char_boundary(
        if len < 8 {
            len
        } else {
            8
        },
    )
}

/// The first eight bytes of `s`.
pub fn abbreviate(s: &str) -> (r: String)
    requires
        can_abbreviate(s@),
    ensures
        r@ == abbreviation(s@),
{
    let len: usize = s.as_bytes().len();
    let n: usize = if len < 8 {
        len
    } else {
        8
    };
    let (head, _tail) = s.split_at(n);
    proof {
        vstd::utf8::encode_utf8_decode_utf8(head@);
    }
    head.to_owned()
}

/// `s` without the first `n` characters.
pub fn skip_chars(s: &str, n: usize) -> (r: String)
    requires
        n <= s@.len(),
    ensures
        r@ == s@.skip(n as int),
{
    let m: usize = s.unicode_len();
    assert(s@.subrange(n as int, m as int) == s@.skip(n as int));
    s.substring_char(n, m).to_owned()
}

pub fn replace(s: &str, from: &str, to: &str) -> (r: String)
    requires
        from@.len() > 0,
    ensures
        r@ == replace_all(s@, from@, to@),
{
    let n: usize = s.unicode_len();
    let k: usize = from.unicode_len();
    let mut out: String = String::new();
    let mut i: usize = 0;
    assert(s@.skip(0) == s@);
    while i < n
        invariant
            n == s@.len(),
            k == from@.len(),
            k > 0,
            i <= n,
            out@ + replace_all(s@.skip(i as int), from@, to@) =~= replace_all(s@, from@, to@),
        decreases n - i,
    {
        let ghost rest = s@.skip(i as int);
        if k <= n - i && same_text(s.substring_char(i, i + k), from) {
            assert(s@.subrange(i as int, i + k) == rest.take(k as int));
            assert(rest.skip(k as int) == s@.skip(i + k));
            out.append(to);
            i = i + k;
        } else {
            assert(k <= n - i ==> s@.subrange(i as int, i + k) == rest.take(k as int));
            assert(rest.skip(1) == s@.skip(i + 1));
            assert(s@.subrange(i as int, i + 1) == seq![rest[0]]);
            out.append(s.substring_char(i, i + 1));
            i = i + 1;
        }
    }
    out
}

fn digit_text(d: u64) -> (r: &'static str)
    requires
        d < 10,
    ensures
        r@ == seq![digit_char(d as nat)],
{
    proof {
        reveal_strlit("0");
        reveal_strlit("1");
        reveal_strlit("2");
        reveal_strlit("3");
        reveal_strlit("4");
        reveal_strlit("5");
        reveal_strlit("6");
        reveal_strlit("7");
        reveal_strlit("8");
        reveal_strlit("9");
    }
    let r: &'static str = if d == 0 {
        "0"
    } else if d == 1 {
        "1"
    } else if d == 2 {
        "2"
    } else if d == 3 {
        "3"
    } else if d == 4 {
        "4"
    } else if d == 5 {
        "5"
    } else if d == 6 {
        "6"
    } else if d == 7 {
        "7"
    } else if d == 8 {
        "8"
    } else {
        "9"
    };
    assert(r@ =~= seq![digit_char(d as nat)]);
    r
}

pub fn decimal_text(n: u64) -> (r: String)
    ensures
        r@ == decimal(n as nat),
    decreases n,
{
    if n < 10 {
        digit_text(n).to_owned()
    } else {
        let mut out: String = decimal_text(n / 10);
        out.append(digit_text(n % 10));
        assert(out@ =~= decimal(n as nat / 10).push(digit_char(n as nat % 10)));
        out
    }
}

proof fn lemma_digits_grow(s: Seq<char>, i: int, j: int)
    requires
        0 <= i <= j <= s.len(),
    ensures
        digits_value(s.take(i)) <= digits_value(s.take(j)),
    decreases j - i,
{
    if i < j {
        lemma_digits_grow(s, i, j - 1);
        assert(s.take(j).drop_last() == s.take(j - 1));
    }
}

/// A fault in a beginning of the digits is the fault of the whole.
proof fn lemma_digits_fault(s: Seq<char>, i: int, max: nat)
    requires
        0 <= i <= s.len(),
        digits_number(s.take(i), max) is Err,
    ensures
        digits_number(s, max) == digits_number(s.take(i), max),
    decreases s.len() - i,
{
    if i == s.len() {
        assert(s.take(i) == s);
    } else {
        assert(s.take(i + 1).drop_last() == s.take(i));
        lemma_digits_fault(s, i + 1, max);
    }
}

/// Reads an unsigned number of at most `max`.
pub fn parse_unsigned(s: &str, max: u64) -> (r: Result<u64, NumberError>)
    ensures
        match r {
            Ok(n) => unsigned_number(s@, max as nat) == Ok::<nat, NumberError>(n as nat) && n
                <= max,
            Err(e) => unsigned_number(s@, max as nat) == Err::<nat, NumberError>(e),
        },
{
    let n: usize = s.unicode_len();
    if n == 0 {
        return Err(NumberError::Empty);
    }
    let start: usize = if n > 1 && s.get_char(0) == '+' {
        1
    } else {
        0
    };
    let ghost body = number_digits(s@);
    assert(s@.skip(0) == s@);
    assert(body == s@.skip(start as int));
    let mut i: usize = start;
    let mut value: u64 = 0;
    while i < n
        invariant
            n == s@.len(),
            start <= i <= n,
            body == s@.skip(start as int),
            body == number_digits(s@),
            s@.len() > 0,
            digits_number(body.take(i - start), max as nat) == Ok::<nat, NumberError>(
                value as nat,
            ),
            value == digits_value(body.take(i - start)),
            value <= max,
        decreases n - i,
    {
        let c: char = s.get_char(i);
        let ghost next = body.take(i + 1 - start);
        assert(next.drop_last() == body.take(i - start));
        assert(next.last() == c);
        if !('0' <= c && c <= '9') {
            proof {
                lemma_digits_fault(body, i + 1 - start, max as nat);
            }
            return Err(NumberError::InvalidDigit);
        }
        let d: u64 = c as u64 - '0' as u64;
        let wide: u128 = value as u128 * 10 + d as u128;
        assert(wide == digits_value(next));
        if wide > max as u128 {
            proof {
                lemma_digits_fault(body, i + 1 - start, max as nat);
            }
            return Err(NumberError::TooLarge);
        }
        value = wide as u64;
        i = i + 1;
    }
    assert(body.take(n - start) == body);
    Ok(value)
}

pub fn lines(s: &str) -> (r: Vec<String>)
    ensures
        texts(r@) == text_lines(s@),
{
    let parts: Vec<String> = split(s, '\n');
    let ghost all = split_on(s@, '\n');
    let last: usize = parts.len() - 1;
    let mut out: Vec<String> = Vec::new();
    let mut i: usize = 0;
    let ghost ended = all.drop_last().map_values(|line: Seq<char>| without_return(line));
    while i < last
        invariant
            all == texts(parts@),
            last + 1 == parts@.len(),
            i <= last,
            ended == all.drop_last().map_values(|line: Seq<char>| without_return(line)),
            texts(out@) =~= ended.take(i as int),
        decreases last - i,
    {
        let line: &String = &parts[i];
        let n: usize = line.as_str().unicode_len();
        let ghost before = texts(out@);
        if n > 0 && line.as_str().get_char(n - 1) == '\r' {
            assert(line@.subrange(0, n - 1) == line@.drop_last());
            out.push(line.as_str().substring_char(0, n - 1).to_owned());
        } else {
            out.push(line.clone());
        }
        assert(texts(out@) =~= before.push(without_return(all[i as int])));
        i = i + 1;
    }
    let ghost before = texts(out@);
    assert(before =~= ended);
    if !parts[last].as_str().is_empty() {
        out.push(parts[last].clone());
        assert(texts(out@) =~= before.push(all.last()));
    }
    out
}

/// A list's beginning that is one longer holds one text more.
pub proof fn lemma_takes_one_more(names: Seq<Seq<char>>, i: int)
    requires
        0 <= i < names.len(),
    ensures
        forall|k: Seq<char>|
            #[trigger] names.take(i + 1).contains(k) == (names.take(i).contains(k) || k == names[i]),
{
    let more = names.take(i + 1);
    let fewer = names.take(i);
    assert forall|k: Seq<char>| #[trigger] more.contains(k) == (fewer.contains(k) || k
        == names[i]) by {
        if more.contains(k) {
            let j = choose|j: int| 0 <= j < more.len() && more[j] == k;
            if j < i {
                assert(fewer[j] == k);
            }
        }
        if fewer.contains(k) {
            let j = choose|j: int| 0 <= j < fewer.len() && fewer[j] == k;
            assert(more[j] == k);
        }
        if k == names[i] {
            assert(more[i] == k);
        }
    }
}

/// A text is cut at each separator: what stands before one is cut for itself, and so is what
/// stands behind it.
pub proof fn law_texts_are_cut_at_separators(a: Seq<char>, b: Seq<char>, separator: char)
    ensures
        split_on(a.push(separator) + b, separator) == split_on(a, separator) + split_on(
            b,
            separator,
        ),
        !a.contains(separator) ==> split_on(a, separator) == seq![a],
    decreases b.len(),
{
    lemma_plain_texts_are_whole(a, separator);
    let whole = a.push(separator) + b;
    if b.len() == 0 {
        assert(whole == a.push(separator));
        assert(whole.drop_last() == a);
    } else {
        let fewer = b.drop_last();
        assert(whole.drop_last() == a.push(separator) + fewer);
        law_texts_are_cut_at_separators(a, fewer, separator);
        lemma_split_nonempty(fewer, separator);
        let (p, q) = (split_on(a, separator), split_on(fewer, separator));
        assert((p + q).last() == q.last());
        assert((p + q).drop_last() == p + q.drop_last());
        assert(split_on(whole, separator) == p + split_on(b, separator));
    }
}

proof fn lemma_plain_texts_are_whole(s: Seq<char>, separator: char)
    ensures
        !s.contains(separator) ==> split_on(s, separator) == seq![s],
    decreases s.len(),
{
    if s.len() == 0 {
        assert(s == Seq::<char>::empty());
        assert(split_on(s, separator) == seq![s]);
    } else if !s.contains(separator) {
        let fewer = s.drop_last();
        assert(!fewer.contains(separator)) by {
            if fewer.contains(separator) {
                let i = choose|i: int| 0 <= i < fewer.len() && fewer[i] == separator;
                assert(s[i] == separator);
            }
        }
        lemma_plain_texts_are_whole(fewer, separator);
        assert(s.last() == s[s.len() - 1]);
        assert(s.last() != separator);
        assert(seq![fewer].drop_last() == Seq::<Seq<char>>::empty());
        assert(fewer.push(s.last()) == s);
        assert(split_on(s, separator) == seq![s]);
    }
}

/// The parts of a text, put together again, are the text.
pub proof fn law_parts_make_the_text(s: Seq<char>, separator: char)
    ensures
        join_with(split_on(s, separator), seq![separator]) == s,
    decreases s.len(),
{
    if s.len() > 0 {
        let fewer = s.drop_last();
        let parts = split_on(fewer, separator);
        lemma_split_nonempty(fewer, separator);
        law_parts_make_the_text(fewer, separator);
        let all = split_on(s, separator);
        if s.last() == separator {
            assert(all.drop_last() == parts);
            assert(join_with(all, seq![separator]) == fewer + seq![separator] + Seq::<char>::empty());
        } else if parts.len() == 1 {
            assert(all == seq![parts.last().push(s.last())]);
        } else {
            assert(all.drop_last() == parts.drop_last());
        }
        assert(s == fewer.push(s.last()));
        assert(join_with(all, seq![separator]) == s);
    }
}

/// Whether a text is `inner` with nothing but white space around it, `i` characters of it in
/// front.
pub open spec fn set_in_white_space(s: Seq<char>, inner: Seq<char>, i: int) -> bool {
    &&& 0 <= i <= i + inner.len() <= s.len()
    &&& inner == s.subrange(i, i + inner.len())
    &&& forall|j: int| 0 <= j < i ==> spec_is_whitespace(#[trigger] s[j])
    &&& forall|j: int| i + inner.len() <= j < s.len() ==> spec_is_whitespace(#[trigger] s[j])
}

/// Trimming takes off the white space at both ends, all of it and nothing else.
pub proof fn law_trimming_takes_white_space_off(s: Seq<char>)
    ensures
        exists|i: int| set_in_white_space(s, spec_trim(s), i),
        spec_trim(s).len() > 0 ==> !spec_is_whitespace(spec_trim(s)[0]) && !spec_is_whitespace(
            spec_trim(s).last(),
        ),
{
    let middle = trim_start(s);
    lemma_trim_start(s);
    lemma_trim_end(middle);
    let i = s.len() - middle.len();
    let t = spec_trim(s);
    assert(t == s.subrange(i, i + t.len()));
    assert forall|j: int| i + t.len() <= j < s.len() implies spec_is_whitespace(#[trigger] s[j]) by {
        assert(s[j] == middle[j - i]);
    }
    assert(set_in_white_space(s, t, i));
}

proof fn lemma_trim_start(s: Seq<char>)
    ensures
        trim_start(s).len() <= s.len(),
        trim_start(s) == s.skip(s.len() - trim_start(s).len()),
        forall|j: int|
            0 <= j < s.len() - trim_start(s).len() ==> spec_is_whitespace(#[trigger] s[j]),
        trim_start(s).len() > 0 ==> !spec_is_whitespace(trim_start(s)[0]),
    decreases s.len(),
{
    if s.len() > 0 && spec_is_whitespace(s[0]) {
        let rest = s.skip(1);
        lemma_trim_start(rest);
        let n = s.len() - trim_start(s).len();
        assert(s.skip(n) == rest.skip(n - 1));
        assert forall|j: int| 0 <= j < n implies spec_is_whitespace(#[trigger] s[j]) by {
            if j > 0 {
                assert(s[j] == rest[j - 1]);
            }
        }
    } else {
        assert(s.skip(0) == s);
    }
}

proof fn lemma_trim_end(s: Seq<char>)
    ensures
        trim_end(s).len() <= s.len(),
        trim_end(s) == s.take(trim_end(s).len() as int),
        forall|j: int| trim_end(s).len() <= j < s.len() ==> spec_is_whitespace(#[trigger] s[j]),
        trim_end(s).len() > 0 ==> !spec_is_whitespace(trim_end(s).last()),
    decreases s.len(),
{
    if s.len() > 0 && spec_is_whitespace(s.last()) {
        let rest = s.drop_last();
        lemma_trim_end(rest);
        let n = trim_end(s).len() as int;
        assert(s.take(n) == rest.take(n));
        assert forall|j: int| n <= j < s.len() implies spec_is_whitespace(#[trigger] s[j]) by {
            if j < rest.len() {
                assert(s[j] == rest[j]);
            }
        }
    } else {
        assert(s.take(s.len() as int) == s);
    }
}

/// A character is taken off the end of a text as often as it stands there.
pub proof fn law_end_is_cleared_of_a_character(s: Seq<char>, c: char)
    ensures
        trim_end_char(s, c).is_prefix_of(s),
        trim_end_char(s, c).len() > 0 ==> trim_end_char(s, c).last() != c,
        forall|j: int| trim_end_char(s, c).len() <= j < s.len() ==> #[trigger] s[j] == c,
    decreases s.len(),
{
    if s.len() > 0 && s.last() == c {
        let rest = s.drop_last();
        law_end_is_cleared_of_a_character(rest, c);
        assert forall|j: int| trim_end_char(s, c).len() <= j < s.len() implies #[trigger] s[j]
            == c by {
            if j < rest.len() {
                assert(s[j] == rest[j]);
            }
        }
    }
}

/// A text begins or ends with another exactly where something can be put behind or before the
/// other to make it.
pub proof fn law_beginnings_and_ends_are_parts(s: Seq<char>, part: Seq<char>, rest: Seq<char>)
    ensures
        has_prefix(part + rest, part),
        has_suffix(rest + part, part),
        has_prefix(s, part) ==> s == part + s.skip(part.len() as int),
        has_suffix(s, part) ==> s == s.take(s.len() - part.len()) + part,
{
    assert((part + rest).take(part.len() as int) == part);
    assert((rest + part).skip((rest + part).len() - part.len()) == part);
    if has_prefix(s, part) {
        assert(s == s.take(part.len() as int) + s.skip(part.len() as int));
    }
    if has_suffix(s, part) {
        let n = s.len() - part.len();
        assert(s == s.take(n) + s.skip(n));
    }
}

/// Each occurrence of a text is replaced where it stands, and what holds none stays as it is.
pub proof fn law_occurrences_are_replaced(s: Seq<char>, from: Seq<char>, to: Seq<char>)
    requires
        from.len() > 0,
    ensures
        replace_all(from + s, from, to) == to + replace_all(s, from, to),
        (forall|i: int| 0 <= i <= s.len() ==> !has_prefix(#[trigger] s.skip(i), from))
            ==> replace_all(s, from, to) == s,
    decreases s.len(),
{
    law_beginnings_and_ends_are_parts(from + s, from, s);
    assert((from + s).skip(from.len() as int) == s);
    if s.len() > 0 && forall|i: int| 0 <= i <= s.len() ==> !has_prefix(#[trigger] s.skip(i), from) {
        assert(s.skip(0) == s);
        let rest = s.skip(1);
        assert forall|i: int| 0 <= i <= rest.len() implies !has_prefix(
            #[trigger] rest.skip(i),
            from,
        ) by {
            assert(rest.skip(i) == s.skip(i + 1));
        }
        law_occurrences_are_replaced(rest, from, to);
        assert(seq![s[0]] + rest == s);
    }
}

/// The first line of a text ends at the first line break, with or without a carriage return
/// before it; the other lines are those of what stands behind.
pub proof fn law_lines_end_at_breaks(line: Seq<char>, rest: Seq<char>)
    requires
        !line.contains('\n'),
    ensures
        text_lines(line.push('\n') + rest) == seq![without_return(line)] + text_lines(rest),
        without_return(line.push('\r')) == line,
        line.len() > 0 && line.last() != '\r' ==> without_return(line) == line && text_lines(line)
            == seq![line],
{
    law_texts_are_cut_at_separators(line, rest, '\n');
    lemma_split_nonempty(rest, '\n');
    let parts = split_on(rest, '\n');
    let all = seq![line] + parts;
    assert(all.last() == parts.last());
    assert(all.drop_last() == seq![line] + parts.drop_last());
    let f = |l: Seq<char>| without_return(l);
    assert(all.drop_last().map_values(f) == seq![without_return(line)]
        + parts.drop_last().map_values(f));
    assert(text_lines(line.push('\n') + rest) == seq![without_return(line)] + text_lines(rest));
    assert(line.push('\r').drop_last() == line);
    if line.len() > 0 && line.last() != '\r' {
        assert(seq![line].drop_last().map_values(f) == Seq::<Seq<char>>::empty());
        assert(text_lines(line) == seq![line]);
    }
}

/// A digit more makes a number ten times what it was, and the digit.
pub proof fn law_digits_count_by_place(s: Seq<char>, last: char)
    requires
        is_digit(last),
    ensures
        digits_value(s.push(last)) == 10 * digits_value(s) + (last as int - '0' as int),
        digits_value(Seq::empty()) == 0,
{
    assert(s.push(last).drop_last() == s);
}

/// A number is read from digits alone, with a plus sign before them or not, as far as it is
/// within the limit.
pub proof fn law_numbers_are_made_of_digits(s: Seq<char>, max: nat)
    requires
        s.len() > 0,
    ensures
        unsigned_number(Seq::<char>::empty(), max) is Err,
        unsigned_number(s, max) matches Ok(n) ==> n <= max && n == digits_value(number_digits(s))
            && forall|i: int|
            0 <= i < number_digits(s).len() ==> is_digit(#[trigger] number_digits(s)[i]),
        (forall|i: int| 0 <= i < s.len() ==> is_digit(#[trigger] s[i])) && digits_value(s) <= max
            ==> unsigned_number(s, max) == Ok::<nat, NumberError>(digits_value(s)),
        s[0] != '+' ==> unsigned_number(seq!['+'] + s, max) == unsigned_number(s, max),
{
    lemma_digits_read(number_digits(s), max);
    lemma_digits_read(s, max);
    assert((seq!['+'] + s).skip(1) == s);
    if forall|i: int| 0 <= i < s.len() ==> is_digit(#[trigger] s[i]) {
        assert(is_digit(s[0]));
    }
}

proof fn lemma_digits_read(s: Seq<char>, max: nat)
    ensures
        digits_number(s, max) matches Ok(n) ==> (n <= max || s.len() == 0) && n == digits_value(s)
            && forall|i: int| 0 <= i < s.len() ==> is_digit(#[trigger] s[i]),
        (forall|i: int| 0 <= i < s.len() ==> is_digit(#[trigger] s[i])) && digits_value(s) <= max
            ==> digits_number(s, max) == Ok::<nat, NumberError>(digits_value(s)),
    decreases s.len(),
{
    if s.len() > 0 {
        let fewer = s.drop_last();
        lemma_digits_read(fewer, max);
        if forall|i: int| 0 <= i < s.len() ==> is_digit(#[trigger] s[i]) {
            assert forall|i: int| 0 <= i < fewer.len() implies is_digit(#[trigger] fewer[i]) by {
                assert(fewer[i] == s[i]);
            }
            assert(is_digit(s[s.len() - 1]));
        }
        if digits_number(fewer, max) is Ok {
            assert forall|i: int| 0 <= i < s.len() && is_digit(s.last()) implies is_digit(
                #[trigger] s[i],
            ) by {
                if i < fewer.len() {
                    assert(fewer[i] == s[i]);
                }
            }
        }
    }
}

} // verus!
