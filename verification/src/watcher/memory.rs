//! The memory watcher: reads the total and the available memory out of a
//! `/proc/meminfo` listing.
//!
//! A listing is read line by line. A line is split into words at Unicode
//! white space; a line of exactly three words whose first word is
//! `MemTotal:` or `MemAvailable:` sets that figure to its second word, read as
//! a decimal `u64`. Later lines overwrite earlier ones, a figure that does not
//! read as a number stops the reading, and every other line is skipped.
use vstd::prelude::*;

verus! {

/// Seconds in one minute.
pub const SECONDS_PER_MINUTE: u64 = 60;

/// How often memory is checked, in minutes.
#[derive(Debug, Clone)]
pub struct Configuration {
    pub period_minutes: u64,
}

/// The memory checker: it knows its period; the listing is read by the
/// caller and handed to [`parse_meminfo`].
#[derive(Debug)]
pub struct Checker {
    period: u64,
}

impl Checker {
    /// The period in seconds.
    pub closed spec fn spec_period(&self) -> u64 {
        self.period
    }

    /// Builds the checker of a configuration. The period in seconds must fit
    /// in a `u64`.
    pub fn new(configuration: Configuration) -> (checker: Self)
        requires
            SECONDS_PER_MINUTE * configuration.period_minutes <= u64::MAX,
        ensures
            checker.spec_period() == SECONDS_PER_MINUTE * configuration.period_minutes,
    {
        Checker { period: SECONDS_PER_MINUTE * configuration.period_minutes }
    }

    /// The time between two runs of this watcher, in seconds.
    pub fn period(&self) -> (seconds: u64)
        ensures
            seconds == self.spec_period(),
    {
        self.period
    }
}

// ---------------------------------------------------------------------------
// Characters and words
// ---------------------------------------------------------------------------

/// Unicode `White_Space`, the set that `char::is_whitespace` tests.
pub open spec fn is_whitespace(c: char) -> bool {
    let u = c as u32;
    ||| 0x09 <= u <= 0x0D
    ||| u == 0x20
    ||| u == 0x85
    ||| u == 0xA0
    ||| u == 0x1680
    ||| 0x2000 <= u <= 0x200A
    ||| u == 0x2028
    ||| u == 0x2029
    ||| u == 0x202F
    ||| u == 0x205F
    ||| u == 0x3000
}

/// The separator of lines (`at_whitespace == false`) or of words
/// (`at_whitespace == true`).
pub open spec fn is_separator(at_whitespace: bool, c: char) -> bool {
    if at_whitespace {
        is_whitespace(c)
    } else {
        c == '\n'
    }
}

/// The pieces of `s` between its separators, in order: `k` separators give
/// `k + 1` pieces, some of which may be empty.
pub open spec fn pieces(s: Seq<char>, at_whitespace: bool) -> Seq<Seq<char>>
    decreases s.len(),
{
    if s.len() == 0 {
        seq![Seq::<char>::empty()]
    } else {
        let before = pieces(s.drop_last(), at_whitespace);
        if is_separator(at_whitespace, s.last()) {
            before.push(Seq::<char>::empty())
        } else {
            before.update(before.len() - 1, before.last().push(s.last()))
        }
    }
}

/// The non-empty members of `ps`, in order.
pub open spec fn non_empty(ps: Seq<Seq<char>>) -> Seq<Seq<char>>
    decreases ps.len(),
{
    if ps.len() == 0 {
        ps
    } else if ps.last().len() == 0 {
        non_empty(ps.drop_last())
    } else {
        non_empty(ps.drop_last()).push(ps.last())
    }
}

/// The lines of a text: its pieces between line feeds. A trailing line feed
/// gives a last, empty line, which has no words and so changes nothing.
pub open spec fn lines(text: Seq<char>) -> Seq<Seq<char>> {
    pieces(text, false)
}

/// The words of a line: its maximal runs of characters that are not white
/// space.
pub open spec fn words(line: Seq<char>) -> Seq<Seq<char>> {
    non_empty(pieces(line, true))
}

/// The views of a vector of character vectors.
pub open spec fn views(v: Seq<Vec<char>>) -> Seq<Seq<char>> {
    v.map_values(|x: Vec<char>| x@)
}

proof fn lemma_pieces_len(s: Seq<char>, at_whitespace: bool)
    ensures
        pieces(s, at_whitespace).len() >= 1,
    decreases s.len(),
{
    if s.len() > 0 {
        lemma_pieces_len(s.drop_last(), at_whitespace);
    }
}

fn char_is_whitespace(c: char) -> (b: bool)
    ensures
        b == is_whitespace(c),
{
    let u = c as u32;
    (0x09 <= u && u <= 0x0D) || u == 0x20 || u == 0x85 || u == 0xA0 || u == 0x1680 || (0x2000
        <= u && u <= 0x200A) || u == 0x2028 || u == 0x2029 || u == 0x202F || u == 0x205F || u
        == 0x3000
}

fn char_is_separator(at_whitespace: bool, c: char) -> (b: bool)
    ensures
        b == is_separator(at_whitespace, c),
{
    if at_whitespace {
        char_is_whitespace(c)
    } else {
        c == '\n'
    }
}

/// Splits `text` at its separators.
fn split_pieces(text: &Vec<char>, at_whitespace: bool) -> (parts: Vec<Vec<char>>)
    ensures
        views(parts@) == pieces(text@, at_whitespace),
{
    let mut done: Vec<Vec<char>> = Vec::new();
    let mut current: Vec<char> = Vec::new();
    let mut i: usize = 0;
    assert(text@.take(0) =~= Seq::<char>::empty());
    assert(views(done@).push(current@) =~= seq![Seq::<char>::empty()]);
    while i < text.len()
        invariant
            i <= text.len(),
            pieces(text@.take(i as int), at_whitespace) == views(done@).push(current@),
        decreases text.len() - i,
    {
        let c = text[i];
        let ghost before = views(done@).push(current@);
        proof {
            assert(text@.take(i + 1).drop_last() =~= text@.take(i as int));
            assert(text@.take(i + 1).last() == c);
        }
        if char_is_separator(at_whitespace, c) {
            let ghost old_current = current@;
            done.push(current);
            current = Vec::new();
            assert(views(done@) =~= before);
            assert(views(done@).push(current@) =~= before.push(Seq::<char>::empty()));
        } else {
            current.push(c);
            assert(views(done@).push(current@) =~= before.update(
                before.len() - 1,
                before.last().push(c),
            ));
        }
        i += 1;
    }
    assert(text@.take(text.len() as int) =~= text@);
    let ghost before = views(done@).push(current@);
    done.push(current);
    assert(views(done@) =~= before);
    done
}

/// Splits a line into its words.
fn split_words(line: &Vec<char>) -> (found: Vec<Vec<char>>)
    ensures
        views(found@) == words(line@),
{
    let parts = split_pieces(line, true);
    let ghost all = views(parts@);
    let mut found: Vec<Vec<char>> = Vec::new();
    let mut i: usize = 0;
    assert(all.take(0) =~= Seq::<Seq<char>>::empty());
    while i < parts.len()
        invariant
            i <= parts.len(),
            all == views(parts@),
            views(found@) == non_empty(all.take(i as int)),
        decreases parts.len() - i,
    {
        proof {
            assert(all.take(i + 1).drop_last() =~= all.take(i as int));
            assert(all.take(i + 1).last() == parts@[i as int]@);
        }
        if parts[i].len() > 0 {
            let ghost before = views(found@);
            let w = parts[i].clone();
            assert(w@ =~= parts@[i as int]@);
            found.push(w);
            assert(views(found@) =~= before.push(parts@[i as int]@));
        }
        i += 1;
    }
    assert(all.take(parts.len() as int) =~= all);
    found
}

fn same_chars(a: &Vec<char>, b: &Vec<char>) -> (same: bool)
    ensures
        same == (a@ == b@),
{
    if a.len() != b.len() {
        return false;
    }
    let mut i: usize = 0;
    while i < a.len()
        invariant
            i <= a.len(),
            a.len() == b.len(),
            forall|j: int| 0 <= j < i ==> a@[j] == b@[j],
        decreases a.len() - i,
    {
        if a[i] != b[i] {
            return false;
        }
        i += 1;
    }
    assert(a@ =~= b@);
    true
}

// ---------------------------------------------------------------------------
// Decimal numbers
// ---------------------------------------------------------------------------

/// An ASCII decimal digit.
pub open spec fn is_digit(c: char) -> bool {
    48 <= c as u32 <= 57
}

/// The value of an ASCII decimal digit.
pub open spec fn digit_value(c: char) -> int {
    c as u32 - 48
}

/// The value of a run of decimal digits, most significant first.
pub open spec fn digits_value(d: Seq<char>) -> int
    decreases d.len(),
{
    if d.len() == 0 {
        0
    } else {
        digits_value(d.drop_last()) * 10 + digit_value(d.last())
    }
}

/// Every character of `d` is a decimal digit.
pub open spec fn all_digits(d: Seq<char>) -> bool {
    forall|j: int| 0 <= j < d.len() ==> is_digit(#[trigger] d[j])
}

/// The digits of a number: the text without one leading `+`.
pub open spec fn unsigned_digits(s: Seq<char>) -> Seq<char> {
    if s.len() > 0 && s[0] == '+' {
        s.drop_first()
    } else {
        s
    }
}

/// What `str::parse::<u64>` gives for `s`: an optional `+`, then one or more
/// decimal digits whose value fits in a `u64`.
pub open spec fn parsed_u64(s: Seq<char>) -> Option<u64> {
    let d = unsigned_digits(s);
    if d.len() > 0 && all_digits(d) && digits_value(d) <= u64::MAX {
        Some(digits_value(d) as u64)
    } else {
        None
    }
}

proof fn lemma_digits_value_grows(d: Seq<char>, k: int)
    requires
        all_digits(d),
        0 <= k <= d.len(),
    ensures
        0 <= digits_value(d.take(k)) <= digits_value(d),
    decreases d.len(),
{
    if d.len() > 0 {
        if k == d.len() {
            assert(d.take(k) =~= d);
            lemma_digits_value_grows(d.drop_last(), k - 1);
            assert(d.drop_last().take(k - 1) =~= d.drop_last());
        } else {
            lemma_digits_value_grows(d.drop_last(), k);
            assert(d.drop_last().take(k) =~= d.take(k));
            lemma_digits_value_grows(d.drop_last(), d.len() - 1);
            assert(d.drop_last().take(d.len() - 1) =~= d.drop_last());
        }
    }
}

/// Reads a decimal `u64` as `str::parse::<u64>` does.
pub fn parse_u64(s: &Vec<char>) -> (value: Option<u64>)
    ensures
        value == parsed_u64(s@),
{
    let start: usize = if s.len() > 0 && s[0] == '+' {
        1
    } else {
        0
    };
    let ghost d = unsigned_digits(s@);
    assert(d =~= s@.subrange(start as int, s.len() as int));
    if start >= s.len() {
        return None;
    }
    let mut acc: u64 = 0;
    let mut i: usize = start;
    assert(d.take(0) =~= Seq::<char>::empty());
    while i < s.len()
        invariant
            start <= i <= s.len(),
            d == s@.subrange(start as int, s.len() as int),
            d == unsigned_digits(s@),
            all_digits(d.take(i - start)),
            acc == digits_value(d.take(i - start)),
        decreases s.len() - i,
    {
        let c = s[i];
        let ghost k: int = i - start;
        assert(d[k] == c);
        let u = c as u32;
        if u < 48 || u > 57 {
            assert(!all_digits(d)) by {
                assert(!is_digit(d[k]));
            }
            return None;
        }
        proof {
            assert(d.take(k + 1).drop_last() =~= d.take(k));
            assert(d.take(k + 1).last() == c);
        }
        let dv: u64 = (u - 48) as u64;
        match acc.checked_mul(10) {
            Some(m) => match m.checked_add(dv) {
                Some(next) => {
                    acc = next;
                },
                None => {
                    proof {
                        if all_digits(d) {
                            lemma_digits_value_grows(d, k + 1);
                        }
                    }
                    return None;
                },
            },
            None => {
                proof {
                    if all_digits(d) {
                        lemma_digits_value_grows(d, k + 1);
                    }
                }
                return None;
            },
        }
        i += 1;
        assert(all_digits(d.take(i - start))) by {
            assert forall|j: int| 0 <= j < d.take(k + 1).len() implies is_digit(
                #[trigger] d.take(k + 1)[j],
            ) by {
                if j < k {
                    assert(d.take(k + 1)[j] == d.take(k)[j]);
                }
            }
        }
    }
    assert(d.take(s.len() - start) =~= d);
    Some(acc)
}

// ---------------------------------------------------------------------------
// The listing
// ---------------------------------------------------------------------------

/// The key of the total memory.
pub open spec fn mem_total_key() -> Seq<char> {
    seq!['M', 'e', 'm', 'T', 'o', 't', 'a', 'l', ':']
}

/// The key of the available memory.
pub open spec fn mem_available_key() -> Seq<char> {
    seq!['M', 'e', 'm', 'A', 'v', 'a', 'i', 'l', 'a', 'b', 'l', 'e', ':']
}

/// The figures read so far: total and available memory.
pub type Readings = (Option<u64>, Option<u64>);

/// What one line does to the readings: `Err` holds a figure that does not
/// read as a number.
pub open spec fn line_step(readings: Readings, ws: Seq<Seq<char>>) -> Result<Readings, Seq<char>> {
    if ws.len() == 3 && ws[0] == mem_total_key() {
        match parsed_u64(ws[1]) {
            Some(n) => Ok((Some(n), readings.1)),
            None => Err(ws[1]),
        }
    } else if ws.len() == 3 && ws[0] == mem_available_key() {
        match parsed_u64(ws[1]) {
            Some(n) => Ok((readings.0, Some(n))),
            None => Err(ws[1]),
        }
    } else {
        Ok(readings)
    }
}

/// The readings after a sequence of lines, or the first figure that does not
/// read as a number.
pub open spec fn scan(ls: Seq<Seq<char>>) -> Result<Readings, Seq<char>>
    decreases ls.len(),
{
    if ls.len() == 0 {
        Ok((None, None))
    } else {
        match scan(ls.drop_last()) {
            Err(v) => Err(v),
            Ok(readings) => line_step(readings, words(ls.last())),
        }
    }
}

proof fn lemma_scan_stops(ls: Seq<Seq<char>>, k: int)
    requires
        0 <= k <= ls.len(),
        scan(ls.take(k)) is Err,
    ensures
        scan(ls) == scan(ls.take(k)),
    decreases ls.len(),
{
    if k < ls.len() {
        assert(ls.drop_last().take(k) =~= ls.take(k));
        lemma_scan_stops(ls.drop_last(), k);
    } else {
        assert(ls.take(k) =~= ls);
    }
}

/// Whether the words of a line set a figure: three words, the first of which
/// is one of the two keys.
pub open spec fn is_figure_line(ws: Seq<Seq<char>>) -> bool {
    ws.len() == 3 && (ws[0] == mem_total_key() || ws[0] == mem_available_key())
}

proof fn lemma_lines_join(a: Seq<char>, b: Seq<char>)
    ensures
        lines(a + seq!['\n'] + b) == lines(a) + lines(b),
    decreases b.len(),
{
    lemma_pieces_len(a, false);
    lemma_pieces_len(b, false);
    if b.len() == 0 {
        assert((a + seq!['\n'] + b).drop_last() =~= a);
        assert(lines(b) =~= seq![Seq::<char>::empty()]);
        assert(lines(a + seq!['\n'] + b) =~= lines(a) + lines(b));
    } else {
        let joined = a + seq!['\n'] + b;
        assert(joined.drop_last() =~= a + seq!['\n'] + b.drop_last());
        assert(joined.last() == b.last());
        lemma_lines_join(a, b.drop_last());
        lemma_pieces_len(b.drop_last(), false);
        let p = lines(a);
        let q = lines(b.drop_last());
        if b.last() == '\n' {
            assert(lines(joined) =~= lines(a) + lines(b));
        } else {
            assert((p + q).update((p + q).len() - 1, (p + q).last().push(b.last())) =~= p + q.update(
                q.len() - 1,
                q.last().push(b.last()),
            ));
            assert(lines(joined) =~= lines(a) + lines(b));
        }
    }
}

proof fn lemma_single_line(line: Seq<char>)
    requires
        !line.contains('\n'),
    ensures
        lines(line) == seq![line],
    decreases line.len(),
{
    if line.len() > 0 {
        assert(!line.drop_last().contains('\n')) by {
            if line.drop_last().contains('\n') {
                let j = choose|j: int| 0 <= j < line.drop_last().len() && line.drop_last()[j] == '\n';
                assert(line[j] == '\n');
            }
        }
        assert(line[line.len() - 1] != '\n');
        lemma_single_line(line.drop_last());
        assert(line.drop_last().push(line.last()) =~= line);
        assert(seq![line.drop_last()].update(0, line.drop_last().push(line.last())) =~= seq![line]);
    } else {
        assert(line =~= Seq::<char>::empty());
    }
}

proof fn lemma_scan_push(ls: Seq<Seq<char>>, line: Seq<char>)
    ensures
        scan(ls.push(line)) == match scan(ls) {
            Err(v) => Err(v),
            Ok(readings) => line_step(readings, words(line)),
        },
{
    assert(ls.push(line).drop_last() =~= ls);
}

/// A line that does not set a figure changes nothing: the listing `text`
/// followed by such a line reads as `text` alone.
pub proof fn law_other_lines_are_skipped(text: Seq<char>, line: Seq<char>)
    requires
        !line.contains('\n'),
        !is_figure_line(words(line)),
    ensures
        scan(lines(text + seq!['\n'] + line)) == scan(lines(text)),
{
    lemma_lines_join(text, line);
    lemma_single_line(line);
    assert(lines(text) + seq![line] =~= lines(text).push(line));
    lemma_scan_push(lines(text), line);
}

/// The last figure line wins: after a line `MemTotal: <n> <unit>` whose
/// figure reads as `n`, the total is `n` whatever came before, and the
/// available memory is what it was.
pub proof fn law_last_total_wins(text: Seq<char>, line: Seq<char>, n: u64)
    requires
        !line.contains('\n'),
        words(line).len() == 3,
        words(line)[0] == mem_total_key(),
        parsed_u64(words(line)[1]) == Some(n),
        scan(lines(text)) is Ok,
    ensures
        scan(lines(text + seq!['\n'] + line)) == Ok::<Readings, Seq<char>>(
            (Some(n), scan(lines(text))->Ok_0.1),
        ),
{
    lemma_lines_join(text, line);
    lemma_single_line(line);
    assert(lines(text) + seq![line] =~= lines(text).push(line));
    lemma_scan_push(lines(text), line);
}

/// The last figure line wins: after a line `MemAvailable: <n> <unit>` whose
/// figure reads as `n`, the available memory is `n` whatever came before,
/// and the total is what it was.
pub proof fn law_last_available_wins(text: Seq<char>, line: Seq<char>, n: u64)
    requires
        !line.contains('\n'),
        words(line).len() == 3,
        words(line)[0] == mem_available_key(),
        parsed_u64(words(line)[1]) == Some(n),
        scan(lines(text)) is Ok,
    ensures
        scan(lines(text + seq!['\n'] + line)) == Ok::<Readings, Seq<char>>(
            (scan(lines(text))->Ok_0.0, Some(n)),
        ),
{
    lemma_lines_join(text, line);
    lemma_single_line(line);
    assert(lines(text) + seq![line] =~= lines(text).push(line));
    lemma_scan_push(lines(text), line);
    assert(mem_available_key() != mem_total_key()) by {
        assert(mem_available_key()[3] != mem_total_key()[3]);
    }
}

/// Once a figure fails to read, nothing after it matters: the reading stops
/// at the first figure line whose figure is not a number.
pub proof fn law_bad_figure_stops_reading(text: Seq<char>, rest: Seq<char>)
    requires
        scan(lines(text)) is Err,
    ensures
        scan(lines(text + seq!['\n'] + rest)) == scan(lines(text)),
{
    lemma_lines_join(text, rest);
    let ls = lines(text) + lines(rest);
    assert(ls.take(lines(text).len() as int) =~= lines(text));
    lemma_scan_stops(ls, lines(text).len() as int);
}

/// The ASCII digit of `d`, for `d` below ten.
pub open spec fn digit_char(d: nat) -> char {
    if d == 0 {
        '0'
    } else if d == 1 {
        '1'
    } else if d == 2 {
        '2'
    } else if d == 3 {
        '3'
    } else if d == 4 {
        '4'
    } else if d == 5 {
        '5'
    } else if d == 6 {
        '6'
    } else if d == 7 {
        '7'
    } else if d == 8 {
        '8'
    } else {
        '9'
    }
}

/// The decimal writing of `n`, most significant digit first, without
/// leading zeros.
pub open spec fn decimal(n: nat) -> Seq<char>
    decreases n,
{
    if n < 10 {
        seq![digit_char(n)]
    } else {
        decimal(n / 10).push(digit_char(n % 10))
    }
}

proof fn lemma_digit_char(d: nat)
    requires
        d < 10,
    ensures
        is_digit(digit_char(d)),
        digit_value(digit_char(d)) == d,
{
}

proof fn lemma_decimal(n: nat)
    ensures
        decimal(n).len() > 0,
        all_digits(decimal(n)),
        digits_value(decimal(n)) == n,
    decreases n,
{
    if n < 10 {
        lemma_digit_char(n);
        assert(decimal(n).drop_last() =~= Seq::<char>::empty());
        assert(decimal(n).last() == digit_char(n));
        assert(digits_value(Seq::<char>::empty()) == 0);
        assert(digits_value(decimal(n)) == digits_value(decimal(n).drop_last()) * 10 + digit_value(
            decimal(n).last(),
        ));
    } else {
        lemma_decimal(n / 10);
        lemma_digit_char(n % 10);
        assert(decimal(n).drop_last() =~= decimal(n / 10));
        assert(decimal(n).last() == digit_char(n % 10));
        vstd::arithmetic::div_mod::lemma_fundamental_div_mod(n as int, 10);
        assert(digits_value(decimal(n)) == digits_value(decimal(n / 10)) * 10 + (n % 10));
        assert forall|j: int| 0 <= j < decimal(n).len() implies is_digit(#[trigger] decimal(n)[j]) by {
            if j < decimal(n / 10).len() {
                assert(decimal(n)[j] == decimal(n / 10)[j]);
            }
        }
    }
}

/// Every `u64`, written in decimal, reads back as itself, with or without a
/// leading `+`: no figure that fits in a `u64` is refused.
pub proof fn law_decimal_reads_back(n: u64)
    ensures
        parsed_u64(decimal(n as nat)) == Some(n),
        parsed_u64(seq!['+'] + decimal(n as nat)) == Some(n),
{
    lemma_decimal(n as nat);
    let d = decimal(n as nat);
    assert(is_digit(d[0]));
    assert(d[0] != '+');
    assert(unsigned_digits(d) == d);
    assert((seq!['+'] + d).drop_first() =~= d);
    assert(unsigned_digits(seq!['+'] + d) == d);
}

/// A figure line as `/proc/meminfo` writes it: the key, a space, the figure
/// in decimal, a space and the unit `kB`.
pub open spec fn figure_line(key: Seq<char>, n: u64) -> Seq<char> {
    key + seq![' '] + decimal(n as nat) + seq![' ', 'k', 'B']
}

/// A listing of a total and an available memory figure, one line each.
pub open spec fn two_figure_listing(total: u64, available: u64) -> Seq<char> {
    figure_line(mem_total_key(), total) + seq!['\n'] + figure_line(mem_available_key(), available)
        + seq!['\n']
}

proof fn lemma_pieces_join(a: Seq<char>, c: char, b: Seq<char>, at_whitespace: bool)
    requires
        is_separator(at_whitespace, c),
    ensures
        pieces(a + seq![c] + b, at_whitespace) == pieces(a, at_whitespace) + pieces(
            b,
            at_whitespace,
        ),
    decreases b.len(),
{
    lemma_pieces_len(a, at_whitespace);
    lemma_pieces_len(b, at_whitespace);
    let joined = a + seq![c] + b;
    if b.len() == 0 {
        assert(joined.drop_last() =~= a);
        assert(pieces(b, at_whitespace) =~= seq![Seq::<char>::empty()]);
        assert(pieces(joined, at_whitespace) =~= pieces(a, at_whitespace) + pieces(b, at_whitespace));
    } else {
        assert(joined.drop_last() =~= a + seq![c] + b.drop_last());
        assert(joined.last() == b.last());
        lemma_pieces_join(a, c, b.drop_last(), at_whitespace);
        lemma_pieces_len(b.drop_last(), at_whitespace);
        let p = pieces(a, at_whitespace);
        let q = pieces(b.drop_last(), at_whitespace);
        if is_separator(at_whitespace, b.last()) {
            assert(pieces(joined, at_whitespace) =~= p + pieces(b, at_whitespace));
        } else {
            assert((p + q).update((p + q).len() - 1, (p + q).last().push(b.last())) =~= p + q.update(
                q.len() - 1,
                q.last().push(b.last()),
            ));
            assert(pieces(joined, at_whitespace) =~= p + pieces(b, at_whitespace));
        }
    }
}

proof fn lemma_single_piece(x: Seq<char>, at_whitespace: bool)
    requires
        forall|i: int| 0 <= i < x.len() ==> !is_separator(at_whitespace, #[trigger] x[i]),
    ensures
        pieces(x, at_whitespace) == seq![x],
    decreases x.len(),
{
    if x.len() > 0 {
        assert(!is_separator(at_whitespace, x[x.len() - 1]));
        assert forall|i: int| 0 <= i < x.drop_last().len() implies !is_separator(
            at_whitespace,
            #[trigger] x.drop_last()[i],
        ) by {
            assert(x.drop_last()[i] == x[i]);
        }
        lemma_single_piece(x.drop_last(), at_whitespace);
        assert(x.drop_last().push(x.last()) =~= x);
        assert(seq![x.drop_last()].update(0, x.drop_last().push(x.last())) =~= seq![x]);
    } else {
        assert(x =~= Seq::<char>::empty());
    }
}

proof fn lemma_non_empty_join(p: Seq<Seq<char>>, q: Seq<Seq<char>>)
    ensures
        non_empty(p + q) == non_empty(p) + non_empty(q),
    decreases q.len(),
{
    if q.len() == 0 {
        assert(p + q =~= p);
        assert(non_empty(p) + non_empty(q) =~= non_empty(p));
    } else {
        assert((p + q).drop_last() =~= p + q.drop_last());
        assert((p + q).last() == q.last());
        lemma_non_empty_join(p, q.drop_last());
        if q.last().len() > 0 {
            assert(non_empty(p + q) =~= non_empty(p) + non_empty(q));
        }
    }
}

proof fn lemma_figure_line_words(key: Seq<char>, n: u64)
    requires
        key.len() > 0,
        forall|i: int| 0 <= i < key.len() ==> !is_whitespace(#[trigger] key[i]),
        forall|i: int| 0 <= i < key.len() ==> #[trigger] key[i] != '\n',
    ensures
        words(figure_line(key, n)) == seq![key, decimal(n as nat), seq!['k', 'B']],
        !figure_line(key, n).contains('\n'),
{
    let d = decimal(n as nat);
    let unit = seq!['k', 'B'];
    lemma_decimal(n as nat);
    assert forall|i: int| 0 <= i < d.len() implies !is_separator(true, #[trigger] d[i]) by {
        assert(is_digit(d[i]));
    }
    assert forall|i: int| 0 <= i < unit.len() implies !is_separator(true, #[trigger] unit[i]) by {}
    assert forall|i: int| 0 <= i < key.len() implies !is_separator(true, #[trigger] key[i]) by {}
    lemma_single_piece(key, true);
    lemma_single_piece(d, true);
    lemma_single_piece(unit, true);
    let line = figure_line(key, n);
    assert(line =~= key + seq![' '] + (d + seq![' '] + unit));
    lemma_pieces_join(d, ' ', unit, true);
    lemma_pieces_join(key, ' ', d + seq![' '] + unit, true);
    let ps = seq![key] + (seq![d] + seq![unit]);
    assert(pieces(line, true) == ps);
    lemma_non_empty_join(seq![key], seq![d] + seq![unit]);
    lemma_non_empty_join(seq![d], seq![unit]);
    assert(seq![key].drop_last() =~= Seq::<Seq<char>>::empty());
    assert(seq![d].drop_last() =~= Seq::<Seq<char>>::empty());
    assert(seq![unit].drop_last() =~= Seq::<Seq<char>>::empty());
    assert(non_empty(Seq::<Seq<char>>::empty()) == Seq::<Seq<char>>::empty());
    assert(Seq::<Seq<char>>::empty().push(key) =~= seq![key]);
    assert(Seq::<Seq<char>>::empty().push(d) =~= seq![d]);
    assert(Seq::<Seq<char>>::empty().push(unit) =~= seq![unit]);
    assert(seq![key].last() == key && seq![d].last() == d && seq![unit].last() == unit);
    assert(non_empty(seq![key]) =~= seq![key]);
    assert(non_empty(seq![d]) =~= seq![d]);
    assert(non_empty(seq![unit]) =~= seq![unit]);
    assert(words(line) =~= seq![key, d, unit]);
    assert(!line.contains('\n')) by {
        if line.contains('\n') {
            let j = choose|j: int| 0 <= j < line.len() && line[j] == '\n';
            if j < key.len() {
                assert(line[j] == key[j]);
            } else if j == key.len() {
            } else if j < key.len() + 1 + d.len() {
                assert(line[j] == d[j - key.len() - 1]);
                assert(is_digit(d[j - key.len() - 1]));
            } else {
            }
        }
    }
}

/// A listing with a total and an available memory figure reads as exactly
/// those two figures, whatever `u64`s they are.
pub proof fn law_listing_reads_back(total: u64, available: u64)
    ensures
        scan(lines(two_figure_listing(total, available))) == Ok::<Readings, Seq<char>>(
            (Some(total), Some(available)),
        ),
        forall|result: Result<MemInfo, MemInfoError>|
            meminfo_result(two_figure_listing(total, available), result) <==> result == Ok::<
                MemInfo,
                MemInfoError,
            >(MemInfo { total, available }),
{
    let tk = mem_total_key();
    let ak = mem_available_key();
    assert forall|i: int| 0 <= i < tk.len() implies !is_whitespace(#[trigger] tk[i]) && tk[i]
        != '\n' by {}
    assert forall|i: int| 0 <= i < ak.len() implies !is_whitespace(#[trigger] ak[i]) && ak[i]
        != '\n' by {}
    lemma_figure_line_words(tk, total);
    lemma_figure_line_words(ak, available);
    law_decimal_reads_back(total);
    law_decimal_reads_back(available);
    let l1 = figure_line(tk, total);
    let l2 = figure_line(ak, available);
    let text = two_figure_listing(total, available);
    let empty = Seq::<char>::empty();
    assert(text =~= l1 + seq!['\n'] + (l2 + seq!['\n'] + empty));
    lemma_lines_join(l2, empty);
    lemma_lines_join(l1, l2 + seq!['\n'] + empty);
    lemma_single_line(l1);
    lemma_single_line(l2);
    assert(lines(empty) =~= seq![empty]);
    let ls = seq![l1] + (seq![l2] + seq![empty]);
    assert(lines(text) == ls);
    assert(ls =~= seq![l1, l2, empty]);
    assert(ls.drop_last() =~= seq![l1, l2]);
    assert(ls.drop_last().drop_last() =~= seq![l1]);
    assert(ls.drop_last().drop_last().drop_last() =~= Seq::<Seq<char>>::empty());
    assert(ak != tk) by {
        assert(ak[3] != tk[3]);
    }
    assert(words(empty) =~= Seq::<Seq<char>>::empty()) by {
        assert(pieces(empty, true) =~= seq![empty]);
        assert(seq![empty].drop_last() =~= Seq::<Seq<char>>::empty());
        assert(seq![empty].last().len() == 0);
        assert(non_empty(seq![empty]) == non_empty(seq![empty].drop_last()));
        assert(non_empty(Seq::<Seq<char>>::empty()) == Seq::<Seq<char>>::empty());
    }
    assert(seq![l1].drop_last() =~= Seq::<Seq<char>>::empty());
    assert(seq![l1].last() == l1);
    assert(scan(Seq::<Seq<char>>::empty()) == Ok::<Readings, Seq<char>>((None, None)));
    let w1 = words(l1);
    assert(w1.len() == 3 && w1[0] == tk && w1[1] == decimal(total as nat));
    assert(line_step((None, None), w1) == Ok::<Readings, Seq<char>>((Some(total), None)));
    assert(scan(seq![l1]) == Ok::<Readings, Seq<char>>((Some(total), None)));
    assert(seq![l1, l2].drop_last() =~= seq![l1]);
    assert(seq![l1, l2].last() == l2);
    let w2 = words(l2);
    assert(w2.len() == 3 && w2[0] == ak && w2[1] == decimal(available as nat));
    assert(scan(seq![l1, l2]) == Ok::<Readings, Seq<char>>((Some(total), Some(available))));
}

/// The memory figures of a listing, in the listing's unit (kB).
#[derive(Debug, Clone, Copy, PartialEq, Eq)]
pub struct MemInfo {
    pub total: u64,
    pub available: u64,
}

/// Why a listing gave no memory figures.
#[derive(Debug, Clone, PartialEq, Eq)]
pub enum MemInfoError {
    /// A `MemTotal:` or `MemAvailable:` line whose figure is not a `u64`.
    InvalidNumber(String),
    /// There is a total but no available memory.
    MissingAvailable,
    /// There is an available but no total memory.
    MissingTotal,
    /// There is neither.
    MissingBoth,
}

/// What reading `text` gives, `result` being its outcome.
pub open spec fn meminfo_result(text: Seq<char>, result: Result<MemInfo, MemInfoError>) -> bool {
    match scan(lines(text)) {
        Err(v) => result matches Err(MemInfoError::InvalidNumber(s)) && s@ == v,
        Ok((Some(t), Some(a))) => result == Ok::<MemInfo, MemInfoError>(
            MemInfo { total: t, available: a },
        ),
        Ok((Some(_), None)) => result == Err::<MemInfo, MemInfoError>(
            MemInfoError::MissingAvailable,
        ),
        Ok((None, Some(_))) => result == Err::<MemInfo, MemInfoError>(MemInfoError::MissingTotal),
        Ok((None, None)) => result == Err::<MemInfo, MemInfoError>(MemInfoError::MissingBoth),
    }
}

/// Collects characters into a `String` (std's `FromIterator<&char>` for
/// `String`); the contract claims that the string holds exactly those
/// characters, in order.
#[verifier::external_body]
fn string_from_chars(chars: &Vec<char>) -> (s: String)
    ensures
        s@ == chars@,
{
    chars.iter().collect()
}

fn chars_of(text: &str) -> (chars: Vec<char>)
    ensures
        chars@ == text@,
{
    let mut chars: Vec<char> = Vec::new();
    for c in it: text.chars()
        invariant
            chars@ == it.seq().take(it.index() as int),
            it.seq() == text@,
    {
        chars.push(c);
    }
    chars
}

fn mem_total_key_chars() -> (key: Vec<char>)
    ensures
        key@ == mem_total_key(),
{
    let key = vec!['M', 'e', 'm', 'T', 'o', 't', 'a', 'l', ':'];
    assert(key@ =~= mem_total_key());
    key
}

fn mem_available_key_chars() -> (key: Vec<char>)
    ensures
        key@ == mem_available_key(),
{
    let key = vec!['M', 'e', 'm', 'A', 'v', 'a', 'i', 'l', 'a', 'b', 'l', 'e', ':'];
    assert(key@ =~= mem_available_key());
    key
}

/// Reads the total and the available memory out of a `/proc/meminfo`
/// listing.
pub fn parse_meminfo(content: &str) -> (result: Result<MemInfo, MemInfoError>)
    ensures
        meminfo_result(content@, result),
{
    let text = chars_of(content);
    let all_lines = split_pieces(&text, false);
    let ghost ls = views(all_lines@);
    let total_key = mem_total_key_chars();
    let available_key = mem_available_key_chars();
    let mut total: Option<u64> = None;
    let mut available: Option<u64> = None;
    let mut i: usize = 0;
    assert(ls.take(0) =~= Seq::<Seq<char>>::empty());
    while i < all_lines.len()
        invariant
            i <= all_lines.len(),
            ls == views(all_lines@),
            ls == lines(text@),
            text@ == content@,
            total_key@ == mem_total_key(),
            available_key@ == mem_available_key(),
            scan(ls.take(i as int)) == Ok::<Readings, Seq<char>>((total, available)),
        decreases all_lines.len() - i,
    {
        proof {
            assert(ls.take(i + 1).drop_last() =~= ls.take(i as int));
            assert(ls.take(i + 1).last() == all_lines@[i as int]@);
        }
        let ws = split_words(&all_lines[i]);
        if ws.len() == 3 {
            assert(views(ws@)[0] == ws@[0]@ && views(ws@)[1] == ws@[1]@);
            let is_total = same_chars(&ws[0], &total_key);
            let is_available = !is_total && same_chars(&ws[0], &available_key);
            if is_total || is_available {
                match parse_u64(&ws[1]) {
                    Some(n) => {
                        if is_total {
                            total = Some(n);
                        } else {
                            available = Some(n);
                        }
                    },
                    None => {
                        proof {
                            lemma_scan_stops(ls, i + 1);
                        }
                        return Err(MemInfoError::InvalidNumber(string_from_chars(&ws[1])));
                    },
                }
            }
        }
        i += 1;
    }
    assert(ls.take(all_lines.len() as int) =~= ls);
    match (total, available) {
        (Some(t), Some(a)) => Ok(MemInfo { total: t, available: a }),
        (Some(_), None) => Err(MemInfoError::MissingAvailable),
        (None, Some(_)) => Err(MemInfoError::MissingTotal),
        (None, None) => Err(MemInfoError::MissingBoth),
    }
}

} // verus!
