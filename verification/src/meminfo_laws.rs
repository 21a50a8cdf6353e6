//! What a report on memory means, line by line.
use crate::meminfo::{self, MeminfoFault, Scan};
use crate::{number, text};
use vstd::prelude::*;

verus! {

/// Lines, each of them ended by a line feed.
pub open spec fn ended_lines(lines: Seq<Seq<char>>) -> Seq<char>
    decreases lines.len(),
{
    if lines.len() == 0 {
        Seq::empty()
    } else {
        lines[0] + seq!['\n'] + ended_lines(lines.drop_first())
    }
}

/// Whether a text is one line: without a line feed, and without a carriage return at its end.
pub open spec fn is_one_line(s: Seq<char>) -> bool {
    !s.contains('\n') && !(s.len() > 0 && s.last() == '\r')
}

proof fn lemma_len_before_first(s: Seq<char>, c: char, rest: Seq<char>)
    requires
        !s.contains(c),
    ensures
        text::len_before(s + seq![c] + rest, c) == s.len(),
    decreases s.len(),
{
    let all = s + seq![c] + rest;
    if s.len() > 0 {
        assert(s.contains(s[0]));
        let tail = s.drop_first();
        assert forall|i: int| 0 <= i < tail.len() implies tail[i] != c by {
            assert(s.contains(s[i + 1]));
        }
        lemma_len_before_first(tail, c, rest);
        assert(all.drop_first() =~= tail + seq![c] + rest);
    }
}

/// Lines that were put together are the lines that are read.
pub proof fn law_lines_are_read_back(lines: Seq<Seq<char>>)
    requires
        forall|i: int| 0 <= i < lines.len() ==> is_one_line(#[trigger] lines[i]),
    ensures
        text::lines(ended_lines(lines)) == lines,
    decreases lines.len(),
{
    if lines.len() > 0 {
        let rest = lines.drop_first();
        let s = ended_lines(lines);
        assert(is_one_line(lines[0]));
        assert forall|i: int| 0 <= i < rest.len() implies is_one_line(#[trigger] rest[i]) by {
            assert(rest[i] == lines[i + 1]);
        }
        law_lines_are_read_back(rest);
        lemma_len_before_first(lines[0], '\n', ended_lines(rest));
        let n = lines[0].len() as int;
        assert(s.take(n) =~= lines[0]);
        assert(s.skip(n + 1) =~= ended_lines(rest));
        assert(text::lines(s) =~= seq![lines[0]] + rest);
        assert(seq![lines[0]] + rest =~= lines);
    } else {
        assert(text::lines(ended_lines(lines)) =~= lines);
    }
}

/// Whether a text is one word of visible ASCII characters.
pub open spec fn is_word(s: Seq<char>) -> bool {
    s.len() > 0 && forall|i: int| 0 <= i < s.len() ==> '!' <= #[trigger] s[i] && s[i] <= '~'
}

/// Whether a text consists of spaces and tabs.
pub open spec fn is_gap(s: Seq<char>) -> bool {
    forall|i: int| 0 <= i < s.len() ==> (#[trigger] s[i]) == ' ' || s[i] == '\t'
}

/// A gap in front of a text makes no difference to its words.
pub proof fn law_gaps_are_skipped(gap: Seq<char>, s: Seq<char>)
    requires
        is_gap(gap),
    ensures
        text::words(gap + s) == text::words(s),
    decreases gap.len(),
{
    if gap.len() > 0 {
        let rest = gap.drop_first();
        assert forall|i: int| 0 <= i < rest.len() implies (#[trigger] rest[i]) == ' ' || rest[i]
            == '\t' by {
            assert(rest[i] == gap[i + 1]);
        }
        law_gaps_are_skipped(rest, s);
        assert(gap[0] == ' ' || gap[0] == '\t');
        assert((gap + s).drop_first() =~= rest + s);
        assert(text::trim_start(gap + s) == text::trim_start(rest + s));
    } else {
        assert(gap + s =~= s);
    }
}

proof fn lemma_word_len(word: Seq<char>, rest: Seq<char>)
    requires
        forall|i: int|
            0 <= i < word.len() ==> '!' <= #[trigger] word[i] && word[i] <= '~',
        rest.len() > 0 ==> rest[0] == ' ' || rest[0] == '\t',
    ensures
        text::word_len(word + rest) == word.len(),
    decreases word.len(),
{
    if word.len() > 0 {
        let tail = word.drop_first();
        assert forall|i: int| 0 <= i < tail.len() implies '!' <= #[trigger] tail[i] && tail[i]
            <= '~' by {
            assert(tail[i] == word[i + 1]);
        }
        lemma_word_len(tail, rest);
        assert('!' <= word[0] && word[0] <= '~');
        assert((word + rest).drop_first() =~= tail + rest);
    } else {
        assert(word + rest =~= rest);
    }
}

/// A word in front of a text, with a gap behind it unless it stands alone, is its first word.
pub proof fn law_words_are_read_back(word: Seq<char>, rest: Seq<char>)
    requires
        is_word(word),
        rest.len() > 0 ==> rest[0] == ' ' || rest[0] == '\t',
    ensures
        text::words(word + rest) == seq![word] + text::words(rest),
{
    let s = word + rest;
    assert('!' <= word[0] && word[0] <= '~');
    assert(text::trim_start(s) == s);
    lemma_word_len(word, rest);
    assert(s.take(word.len() as int) =~= word);
    assert(s.skip(word.len() as int) =~= rest);
}

pub proof fn lemma_bounded(s: Seq<char>, max: nat, over: number::WholeError)
    requires
        forall|i: int| 0 <= i < s.len() ==> text::is_digit(#[trigger] s[i]),
        text::decimal_value(s) <= max,
    ensures
        number::bounded_value(s, max, over) == Ok::<nat, number::WholeError>(
            text::decimal_value(s),
        ),
    decreases s.len(),
{
    if s.len() > 0 {
        let front = s.drop_last();
        assert(text::is_digit(s[s.len() - 1]));
        assert forall|i: int| 0 <= i < front.len() implies text::is_digit(#[trigger] front[i]) by {
            assert(front[i] == s[i]);
        }
        lemma_bounded(front, max, over);
    }
}

/// The digits of a number are read as that number, with or without a plus sign.
pub proof fn law_numbers_are_read_back(n: nat, max: nat)
    requires
        n <= max,
    ensures
        number::whole_from_text(text::decimal(n), max) == Ok::<nat, number::WholeError>(n),
        number::whole_from_text(seq!['+'] + text::decimal(n), max) == Ok::<
            nat,
            number::WholeError,
        >(n),
{
    let digits = text::decimal(n);
    text::lemma_decimal_value(n);
    assert(text::is_digit(digits[0]));
    lemma_bounded(digits, max, number::WholeError::TooLarge);
    assert((seq!['+'] + digits).drop_first() =~= digits);
}

/// A line of a report: a name, a number of kilobytes, and how they are set.
pub struct Entry {
    pub name: Seq<char>,
    pub gap: Seq<char>,
    pub kilobytes: nat,
    pub tail: Seq<char>,
}

impl Entry {
    /// The name with a colon behind it, a gap, the number, and what follows that, such as ` kB`.
    pub open spec fn line(self) -> Seq<char> {
        self.name + seq![':'] + self.gap + text::decimal(self.kilobytes) + self.tail
    }

    /// Whether the name is a word that does not end in a colon, there is a gap before the number and
    /// before what follows it, and the number can be counted in bytes.
    pub open spec fn is_plain(self) -> bool {
        &&& is_word(self.name)
        &&& self.name.last() != ':'
        &&& self.gap.len() > 0
        &&& is_gap(self.gap)
        &&& self.kilobytes * 1024 <= u64::MAX
        &&& self.tail.len() > 0 ==> self.tail[0] == ' ' || self.tail[0] == '\t'
        &&& is_one_line(self.tail)
    }
}

/// A report of the given lines.
pub open spec fn report(entries: Seq<Entry>) -> Seq<char> {
    ended_lines(Seq::new(entries.len(), |i: int| entries[i].line()))
}

proof fn lemma_entry(e: Entry)
    requires
        e.is_plain(),
    ensures
        is_one_line(e.line()),
        meminfo::read_line(e.line()) == (if e.name == "MemAvailable"@ {
            meminfo::Line::Mem(e.kilobytes)
        } else if e.name == "SwapFree"@ {
            meminfo::Line::Swap(e.kilobytes)
        } else {
            meminfo::Line::Other
        }),
{
    let digits = text::decimal(e.kilobytes);
    let line = e.line();
    text::lemma_decimal_value(e.kilobytes);
    law_numbers_are_read_back(e.kilobytes, u64::MAX as nat);
    let word = e.name + seq![':'];
    let rest = e.gap + (digits + e.tail);
    assert(line =~= word + rest);
    assert(is_word(word)) by {
        assert forall|i: int| 0 <= i < word.len() implies '!' <= #[trigger] word[i] && word[i]
            <= '~' by {
            if i < e.name.len() {
                assert(word[i] == e.name[i]);
            }
        }
    }
    assert(e.gap[0] == ' ' || e.gap[0] == '\t');
    law_words_are_read_back(word, rest);
    law_gaps_are_skipped(e.gap, digits + e.tail);
    assert(is_word(digits)) by {
        assert forall|i: int| 0 <= i < digits.len() implies '!' <= #[trigger] digits[i] && digits[i]
            <= '~' by {
            assert(text::is_digit(digits[i]));
        }
    }
    law_words_are_read_back(digits, e.tail);
    let words = text::words(line);
    assert(words[0] == word && words[1] == digits);
    assert(word.drop_last() =~= e.name);
    assert(text::trim_end_of(e.name, ':') == e.name);
    assert(text::trim_end_of(word, ':') == e.name);
    assert forall|i: int| 0 <= i < line.len() implies line[i] != '\n' by {
        if i < word.len() {
            assert(line[i] == word[i]);
        } else if i < word.len() + e.gap.len() {
            assert(line[i] == e.gap[i - word.len()]);
        } else if i < word.len() + e.gap.len() + digits.len() {
            assert(line[i] == digits[i - word.len() - e.gap.len()]);
            assert(text::is_digit(digits[i - word.len() - e.gap.len()]));
        } else {
            let j = i - word.len() - e.gap.len() - digits.len();
            assert(line[i] == e.tail[j]);
            assert(e.tail.contains(e.tail[j]));
        }
    }
    if e.tail.len() > 0 {
        assert(line.last() == e.tail.last());
    } else {
        assert(line.last() == digits[digits.len() - 1]);
        assert(text::is_digit(digits[digits.len() - 1]));
    }
}

/// Whether an entry is the last one of the given name.
pub open spec fn is_last(entries: Seq<Entry>, name: Seq<char>, i: int) -> bool {
    0 <= i < entries.len() && entries[i].name == name && forall|j: int|
        i < j < entries.len() ==> (#[trigger] entries[j]).name != name
}

/// Whether no entry has the given name.
pub open spec fn is_missing(entries: Seq<Entry>, name: Seq<char>) -> bool {
    forall|j: int| 0 <= j < entries.len() ==> (#[trigger] entries[j]).name != name
}

proof fn lemma_scan(entries: Seq<Entry>, i: int, k: int)
    requires
        forall|j: int| 0 <= j < entries.len() ==> (#[trigger] entries[j]).is_plain(),
        is_last(entries, "MemAvailable"@, i) || (i == -1 && is_missing(entries, "MemAvailable"@)),
        is_last(entries, "SwapFree"@, k) || (k == -1 && is_missing(entries, "SwapFree"@)),
    ensures
        meminfo::scan(Seq::new(entries.len(), |j: int| entries[j].line())) == (Scan::Found {
            mem: if i >= 0 {
                Some(entries[i].kilobytes * 1024)
            } else {
                None
            },
            swap: if k >= 0 {
                Some(entries[k].kilobytes * 1024)
            } else {
                None
            },
        }),
    decreases entries.len(),
{
    let lines = Seq::new(entries.len(), |j: int| entries[j].line());
    reveal_strlit("MemAvailable");
    reveal_strlit("SwapFree");
    if entries.len() > 0 {
        let front = entries.drop_last();
        let n = entries.len() - 1;
        let e = entries[n];
        assert(e.is_plain());
        lemma_entry(e);
        assert("MemAvailable"@[0] == 'M' && "SwapFree"@[0] == 'S');
        assert(lines.drop_last() =~= Seq::new(front.len(), |j: int| front[j].line()));
        assert(lines.last() == e.line());
        assert forall|j: int| 0 <= j < front.len() implies (#[trigger] front[j]).is_plain() by {
            assert(front[j] == entries[j]);
        }
        if i == n {
            let m = lemma_last(front, "MemAvailable"@);
            lemma_scan(front, m, k);
        } else if k == n {
            let m = lemma_last(front, "SwapFree"@);
            lemma_scan(front, i, m);
        } else {
            lemma_scan(front, i, k);
        }
    }
}

/// Of every name there is a last entry, or none.
proof fn lemma_last(entries: Seq<Entry>, name: Seq<char>) -> (i: int)
    ensures
        is_last(entries, name, i) || (i == -1 && is_missing(entries, name)),
    decreases entries.len(),
{
    if entries.len() == 0 {
        -1
    } else if entries.last().name == name {
        entries.len() - 1
    } else {
        let front = entries.drop_last();
        let i = lemma_last(front, name);
        assert forall|j: int| i < j < entries.len() && (i >= 0 || j >= 0) implies (
        #[trigger] entries[j]).name != name by {
            if j < front.len() {
                assert(front[j] == entries[j]);
            }
        }
        i
    }
}

/// The memory that is available is 1024 times the number on the last line named `MemAvailable`, and
/// the swap that is free 1024 times the one on the last line named `SwapFree`. Lines of other names
/// make no difference, wherever they stand and whatever their numbers are.
pub proof fn law_report_gives_memory_and_swap(entries: Seq<Entry>, i: int, k: int)
    requires
        forall|j: int| 0 <= j < entries.len() ==> (#[trigger] entries[j]).is_plain(),
        is_last(entries, "MemAvailable"@, i),
        is_last(entries, "SwapFree"@, k),
    ensures
        !meminfo::overflows(report(entries)),
        meminfo::meminfo_from_text(report(entries)) == Ok::<(nat, nat), MeminfoFault>(
            (entries[i].kilobytes * 1024, entries[k].kilobytes * 1024),
        ),
{
    lemma_report_lines(entries);
    lemma_scan(entries, i, k);
}

proof fn lemma_report_lines(entries: Seq<Entry>)
    requires
        forall|j: int| 0 <= j < entries.len() ==> (#[trigger] entries[j]).is_plain(),
    ensures
        text::lines(report(entries)) == Seq::new(entries.len(), |j: int| entries[j].line()),
{
    let lines = Seq::new(entries.len(), |j: int| entries[j].line());
    assert forall|j: int| 0 <= j < lines.len() implies is_one_line(#[trigger] lines[j]) by {
        assert(entries[j].is_plain());
        lemma_entry(entries[j]);
    }
    law_lines_are_read_back(lines);
}

/// A report without a line named `MemAvailable` is refused for that, and one without a line named
/// `SwapFree` for that.
pub proof fn law_report_needs_both_lines(entries: Seq<Entry>)
    requires
        forall|j: int| 0 <= j < entries.len() ==> (#[trigger] entries[j]).is_plain(),
    ensures
        is_missing(entries, "MemAvailable"@) ==> meminfo::meminfo_from_text(report(entries))
            == Err::<(nat, nat), MeminfoFault>(MeminfoFault::NoMemAvailable),
        !is_missing(entries, "MemAvailable"@) && is_missing(entries, "SwapFree"@)
            ==> meminfo::meminfo_from_text(report(entries)) == Err::<(nat, nat), MeminfoFault>(
            MeminfoFault::NoSwapFree,
        ),
{
    let i = lemma_last(entries, "MemAvailable"@);
    let k = lemma_last(entries, "SwapFree"@);
    lemma_report_lines(entries);
    lemma_scan(entries, i, k);
}

/// A line of a report whose value is no number: a name, a gap, and a word that begins with neither a
/// digit nor a plus sign.
pub open spec fn is_faulty(line: Seq<char>, word: Seq<char>, gap: Seq<char>, value: Seq<char>) -> bool {
    &&& line == word + gap + value
    &&& is_word(word)
    &&& gap.len() > 0
    &&& is_gap(gap)
    &&& is_word(value)
    &&& !('0' <= value[0] && value[0] <= '9')
    &&& value[0] != '+'
}

proof fn lemma_no_digit(s: Seq<char>, max: nat, over: number::WholeError)
    requires
        s.len() > 0,
        !text::is_digit(s[0]),
    ensures
        number::bounded_value(s, max, over) == Err::<nat, number::WholeError>(
            number::WholeError::InvalidDigit,
        ),
    decreases s.len(),
{
    let front = s.drop_last();
    if s.len() > 1 {
        assert(front[0] == s[0]);
        lemma_no_digit(front, max, over);
    } else {
        assert(front.len() == 0);
        assert(number::bounded_value(front, max, over) == Ok::<nat, number::WholeError>(0));
    }
}

/// A report is refused for the first line whose value is no number, whatever the name of that line is
/// and whatever follows it.
pub proof fn law_faulty_values_are_refused(
    entries: Seq<Entry>,
    line: Seq<char>,
    word: Seq<char>,
    gap: Seq<char>,
    value: Seq<char>,
    behind: Seq<Seq<char>>,
)
    requires
        forall|j: int| 0 <= j < entries.len() ==> (#[trigger] entries[j]).is_plain(),
        is_faulty(line, word, gap, value),
        forall|j: int| 0 <= j < behind.len() ==> is_one_line(#[trigger] behind[j]),
    ensures
        meminfo::meminfo_from_text(
            ended_lines(
                Seq::new(entries.len(), |j: int| entries[j].line()) + seq![line] + behind,
            ),
        ) == Err::<(nat, nat), MeminfoFault>(
            MeminfoFault::Value { line, cause: number::WholeError::InvalidDigit },
        ),
{
    let front = Seq::new(entries.len(), |j: int| entries[j].line());
    let lines = front + seq![line] + behind;
    assert(line =~= word + (gap + value));
    assert(gap[0] == ' ' || gap[0] == '\t');
    law_words_are_read_back(word, gap + value);
    law_gaps_are_skipped(gap, value);
    law_words_are_read_back(value, Seq::empty());
    assert(value + Seq::<char>::empty() =~= value);
    let words = text::words(line);
    assert(words[1] == value);
    lemma_no_digit(value, u64::MAX as nat, number::WholeError::TooLarge);
    assert(meminfo::read_line(line) == meminfo::Line::Fault(number::WholeError::InvalidDigit));
    assert(is_one_line(line)) by {
        assert forall|i: int| 0 <= i < line.len() implies line[i] != '\n' && line[i] != '\r' by {
            if i < word.len() {
                assert(line[i] == word[i]);
            } else if i < word.len() + gap.len() {
                assert(line[i] == gap[i - word.len()]);
            } else {
                assert(line[i] == value[i - word.len() - gap.len()]);
            }
        }
    }
    assert forall|j: int| 0 <= j < lines.len() implies is_one_line(#[trigger] lines[j]) by {
        if j < front.len() {
            assert(entries[j].is_plain());
            lemma_entry(entries[j]);
        } else if j > front.len() {
            assert(lines[j] == behind[j - front.len() - 1]);
        }
    }
    law_lines_are_read_back(lines);
    let i = lemma_last(entries, "MemAvailable"@);
    let k = lemma_last(entries, "SwapFree"@);
    lemma_scan(entries, i, k);
    let n = front.len() as int;
    assert(lines.take(n + 1).drop_last() =~= front);
    assert(lines.take(n + 1).last() == line);
    meminfo::lemma_scan_prefix(lines, n + 1);
}

/// The report is read at the path that is set, and else where the kernel gives it.
pub proof fn law_where_the_report_is_read(setting: Option<Vec<u8>>)
    ensures
        setting matches Some(p) ==> meminfo::report_path(setting) == p@,
        setting is None ==> meminfo::report_path(setting) == vstd::utf8::encode_utf8(
            "/proc/meminfo"@,
        ),
{
}

/// The last line of a text is read though no line feed ends it, and a carriage return before a line
/// feed is no part of its line.
pub proof fn law_line_endings(lines: Seq<Seq<char>>, last: Seq<char>)
    requires
        forall|i: int| 0 <= i < lines.len() ==> is_one_line(#[trigger] lines[i]),
        last.len() > 0,
        !last.contains('\n'),
    ensures
        text::lines(ended_lines(lines) + last) == lines.push(last),
        text::lines(last + seq!['\r', '\n'] + ended_lines(lines)) == seq![last] + lines,
    decreases lines.len(),
{
    law_lines_are_read_back(lines);
    let rest = ended_lines(lines);
    let line = last + seq!['\r'];
    let s = last + seq!['\r', '\n'] + rest;
    assert(!line.contains('\n')) by {
        assert forall|i: int| 0 <= i < line.len() implies line[i] != '\n' by {
            if i < last.len() {
                assert(last.contains(last[i]));
            }
        }
    }
    lemma_len_before_first(line, '\n', rest);
    assert(s =~= line + seq!['\n'] + rest);
    let n = line.len() as int;
    assert(s.take(n) =~= line);
    assert(line.drop_last() =~= last);
    assert(s.skip(n + 1) =~= rest);
    assert(text::lines(s) =~= seq![last] + lines);
    if lines.len() == 0 {
        text::lemma_len_before(last, '\n');
        let k = text::len_before(last, '\n');
        if k < last.len() {
            assert(last.contains(last[k as int]));
        }
        assert(rest + last =~= last);
        assert(text::lines(last) =~= lines.push(last));
    } else {
        let tail = lines.drop_first();
        assert(is_one_line(lines[0]));
        assert forall|i: int| 0 <= i < tail.len() implies is_one_line(#[trigger] tail[i]) by {
            assert(tail[i] == lines[i + 1]);
        }
        law_line_endings(tail, last);
        let behind = ended_lines(tail) + last;
        lemma_len_before_first(lines[0], '\n', behind);
        let t = rest + last;
        assert(t =~= lines[0] + seq!['\n'] + behind);
        let n = lines[0].len() as int;
        assert(t.take(n) =~= lines[0]);
        assert(t.skip(n + 1) =~= behind);
        assert(text::lines(t) =~= seq![lines[0]] + tail.push(last));
        assert(seq![lines[0]] + tail.push(last) =~= lines.push(last));
    }
}

} // verus!
