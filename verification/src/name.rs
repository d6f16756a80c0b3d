use vstd::prelude::*;
use vstd::string::StrSliceExecFns;
use vstd::string::StringExecFns;
use crate::freq::Freq;
use crate::instant::Instant;
use crate::order::lemma_lex_le_groups;
use crate::order::lemma_lex_le_refl;
use crate::order::lemma_ts_key_take;
use crate::order::lex_le;
use crate::order::lex_lt;
use crate::order::ts_key;

verus! {

/// The decimal digit character for `d`.
pub open spec fn digit(d: int) -> char {
    if d == 0 {
        '0'
    } else if d == 1 {
        '1'
    } else if d == 2 {
        '2'
    } else if d == 3 {
        '3'
    } else if d == 4 {
        '4'
    } else if d == 5 {
        '5'
    } else if d == 6 {
        '6'
    } else if d == 7 {
        '7'
    } else if d == 8 {
        '8'
    } else {
        '9'
    }
}

/// `n` zero-padded to two digits.
pub open spec fn two_digits(n: int) -> Seq<char> {
    seq![digit(n / 10), digit(n % 10)]
}

/// `n` zero-padded to four digits.
pub open spec fn four_digits(n: int) -> Seq<char> {
    seq![digit(n / 1000), digit((n / 100) % 10), digit((n / 10) % 10), digit(n % 10)]
}

/// The fixed-width timestamp component `YYYY-MM-DD-HHMMSS`.  Zero padding
/// makes lexicographic order on stamps coincide with chronological order.
pub open spec fn stamp_chars(t: Instant) -> Seq<char> {
    four_digits(t.year as int) + "-"@ + two_digits(t.month as int) + "-"@ + two_digits(
        t.day as int,
    ) + "-"@ + two_digits(t.hour as int) + two_digits(t.minute as int) + two_digits(t.second as int)
}

/// The canonical snapshot name `<stamp>_<class-tag>`.
pub open spec fn name_chars(t: Instant, f: Freq) -> Seq<char> {
    stamp_chars(t) + "_"@ + f.tag()
}

fn digit_str(d: u32) -> (r: &'static str)
    requires
        d <= 9,
    ensures
        r@ == seq![digit(d as int)],
{
    let r: &'static str = match d {
        0 => "0",
        1 => "1",
        2 => "2",
        3 => "3",
        4 => "4",
        5 => "5",
        6 => "6",
        7 => "7",
        8 => "8",
        _ => "9",
    };
    proof {
        reveal_strlit("0");
        reveal_strlit("1");
        reveal_strlit("2");
        reveal_strlit("3");
        reveal_strlit("4");
        reveal_strlit("5");
        reveal_strlit("6");
        reveal_strlit("7");
        reveal_strlit("8");
        reveal_strlit("9");
        assert(r@ =~= seq![digit(d as int)]);
    }
    r
}

fn append_two(s: &mut String, n: u32)
    requires
        n <= 99,
    ensures
        final(s)@ == old(s)@ + two_digits(n as int),
{
    s.append(digit_str(n / 10));
    s.append(digit_str(n % 10));
    proof {
        assert(s@ =~= old(s)@ + two_digits(n as int));
    }
}

fn append_four(s: &mut String, n: u32)
    requires
        n <= 9999,
    ensures
        final(s)@ == old(s)@ + four_digits(n as int),
{
    s.append(digit_str(n / 1000));
    s.append(digit_str((n / 100) % 10));
    s.append(digit_str((n / 10) % 10));
    s.append(digit_str(n % 10));
    proof {
        assert(s@ =~= old(s)@ + four_digits(n as int));
    }
}

/// Derives the canonical snapshot name for class `freq` at instant `now`.
pub fn format_name(now: &Instant, freq: &Freq) -> (r: String)
    requires
        now.wf(),
    ensures
        r@ == name_chars(*now, *freq),
{
    let mut s = String::new();
    append_four(&mut s, now.year);
    s.append("-");
    append_two(&mut s, now.month);
    s.append("-");
    append_two(&mut s, now.day);
    s.append("-");
    append_two(&mut s, now.hour);
    append_two(&mut s, now.minute);
    append_two(&mut s, now.second);
    s.append("_");
    s.append(freq.as_str());
    proof {
        assert(s@ =~= name_chars(*now, *freq));
    }
    s
}

/// The segment of `s` after its last `'_'`, or all of `s` if it has none.
pub open spec fn tail_segment(s: Seq<char>) -> Seq<char>
    decreases s.len(),
{
    if s.len() == 0 {
        s
    } else if s.last() == '_' {
        Seq::empty()
    } else {
        tail_segment(s.drop_last()).push(s.last())
    }
}

/// What parsing a directory entry yields: the class named by the entry's
/// tail segment, or nothing for an entry this tool does not manage.
pub open spec fn parse_spec(s: Seq<char>) -> Option<Freq> {
    Freq::from_tag(tail_segment(s))
}

/// The tail segment is the suffix that starts right after the last `'_'`.
pub proof fn lemma_tail_segment_skip(s: Seq<char>, i: int)
    requires
        0 <= i <= s.len(),
        forall|j: int| i <= j < s.len() ==> s[j] != '_',
        i == 0 || s[i - 1] == '_',
    ensures
        tail_segment(s) == s.skip(i),
    decreases s.len(),
{
    if i == s.len() {
        assert(s.skip(i) =~= Seq::<char>::empty());
        if i > 0 {
            assert(s.last() == '_');
        }
    } else {
        assert(s.last() != '_');
        lemma_tail_segment_skip(s.drop_last(), i);
        assert(s.drop_last().skip(i).push(s.last()) =~= s.skip(i));
    }
}

/// Classifies a directory entry name: `Some` exactly when the entry's tail
/// segment is a known class tag.  Unrelated entries yield `None`, never an
/// error.
pub fn parse_name(name: &str) -> (r: Option<Freq>)
    ensures
        r == parse_spec(name@),
{
    let n = name.unicode_len();
    let mut start: usize = 0;
    let mut i: usize = 0;
    while i < n
        invariant
            i <= n,
            n == name@.len(),
            start <= i,
            start == 0 || name@[start - 1] == '_',
            forall|j: int| start <= j < i ==> name@[j] != '_',
        decreases n - i,
    {
        if name.get_char(i) == '_' {
            start = i + 1;
        }
        i += 1;
    }
    proof {
        lemma_tail_segment_skip(name@, start as int);
    }
    let suffix = name.substring_char(start, n);
    proof {
        assert(suffix@ =~= name@.skip(start as int));
    }
    Freq::from_str(suffix)
}

/// Round trip: a generated name always parses back to its own class.
/// Entries whose tail segment is no known tag always parse to `None`.
pub proof fn lemma_name_round_trip(t: Instant, f: Freq)
    ensures
        parse_spec(name_chars(t, f)) == Some(f),
{
    reveal_strlit("_");
    reveal_strlit("frequently");
    reveal_strlit("hourly");
    reveal_strlit("daily");
    reveal_strlit("monthly");
    reveal_strlit("yearly");
    let s = name_chars(t, f);
    let i = stamp_chars(t).len() as int + 1;
    assert(s[i - 1] == '_');
    assert forall|j: int| i <= j < s.len() implies s[j] != '_' by {
        assert(s[j] == f.tag()[j - i]);
    }
    lemma_tail_segment_skip(s, i);
    assert(s.skip(i) =~= f.tag());
    Freq::lemma_tag_round_trip(f);
}

proof fn lemma_digit_lt(x: int, y: int)
    requires
        0 <= x < y <= 9,
    ensures
        (digit(x) as u32) < (digit(y) as u32),
{
}

/// Two-digit groups compare as their numbers do.
proof fn lemma_two_digits_lt(m: int, n: int)
    requires
        0 <= m <= 99,
        0 <= n <= 99,
        m < n,
    ensures
        lex_lt(two_digits(m), two_digits(n)),
{
    reveal_with_fuel(lex_le, 3);
    let s = two_digits(m);
    let t = two_digits(n);
    assert(s.len() == 2 && t.len() == 2);
    if m / 10 < n / 10 {
        lemma_digit_lt(m / 10, n / 10);
    } else {
        assert(m / 10 == n / 10);
        assert(m % 10 < n % 10);
        lemma_digit_lt(m % 10, n % 10);
        assert(s.drop_first() =~= seq![digit(m % 10)]);
        assert(t.drop_first() =~= seq![digit(n % 10)]);
    }
}

/// Four-digit groups compare as their numbers do.
#[verifier::rlimit(50)]
proof fn lemma_four_digits_lt(m: int, n: int)
    requires
        0 <= m <= 9999,
        0 <= n <= 9999,
        m < n,
    ensures
        lex_lt(four_digits(m), four_digits(n)),
{
    reveal_with_fuel(lex_le, 5);
    let s = four_digits(m);
    let t = four_digits(n);
    assert(s.len() == 4 && t.len() == 4);
    let s1 = s.drop_first();
    let t1 = t.drop_first();
    let s2 = s1.drop_first();
    let t2 = t1.drop_first();
    assert(s1 =~= seq![digit((m / 100) % 10), digit((m / 10) % 10), digit(m % 10)]);
    assert(t1 =~= seq![digit((n / 100) % 10), digit((n / 10) % 10), digit(n % 10)]);
    assert(s2 =~= seq![digit((m / 10) % 10), digit(m % 10)]);
    assert(t2 =~= seq![digit((n / 10) % 10), digit(n % 10)]);
    assert(s2.drop_first() =~= seq![digit(m % 10)]);
    assert(t2.drop_first() =~= seq![digit(n % 10)]);
    if m / 1000 < n / 1000 {
        lemma_digit_lt(m / 1000, n / 1000);
    } else {
        assert(m / 1000 == n / 1000);
        if (m / 100) % 10 < (n / 100) % 10 {
            lemma_digit_lt((m / 100) % 10, (n / 100) % 10);
        } else {
            assert((m / 100) % 10 == (n / 100) % 10);
            assert(m / 100 == n / 100);
            if (m / 10) % 10 < (n / 10) % 10 {
                lemma_digit_lt((m / 10) % 10, (n / 10) % 10);
            } else {
                assert((m / 10) % 10 == (n / 10) % 10);
                assert(m / 10 == n / 10);
                assert(m % 10 < n % 10);
                lemma_digit_lt(m % 10, n % 10);
            }
        }
    }
}

/// Sortability law: for well-formed instants, lexicographic order on the
/// fixed-width, zero-padded stamps is exactly chronological order, so
/// pruning may sort names as a proxy for sorting by time.
pub proof fn lemma_stamp_order_is_chronological(a: Instant, b: Instant)
    requires
        a.wf(),
        b.wf(),
    ensures
        lex_le(stamp_chars(a), stamp_chars(b)) == a.time_le(b),
{
    let dash = "-"@;
    let ga1 = four_digits(a.year as int) + dash;
    let gb1 = four_digits(b.year as int) + dash;
    let ga2 = two_digits(a.month as int) + dash;
    let gb2 = two_digits(b.month as int) + dash;
    let ga3 = two_digits(a.day as int) + dash;
    let gb3 = two_digits(b.day as int) + dash;
    let ga4 = two_digits(a.hour as int);
    let gb4 = two_digits(b.hour as int);
    let ga5 = two_digits(a.minute as int);
    let gb5 = two_digits(b.minute as int);
    let ga6 = two_digits(a.second as int);
    let gb6 = two_digits(b.second as int);
    let ra5 = ga5 + ga6;
    let rb5 = gb5 + gb6;
    let ra4 = ga4 + ra5;
    let rb4 = gb4 + rb5;
    let ra3 = ga3 + ra4;
    let rb3 = gb3 + rb4;
    let ra2 = ga2 + ra3;
    let rb2 = gb2 + rb3;
    assert(stamp_chars(a) =~= ga1 + ra2);
    assert(stamp_chars(b) =~= gb1 + rb2);
    if a.year != b.year {
        if a.year < b.year {
            lemma_four_digits_lt(a.year as int, b.year as int);
            lemma_lex_le_groups(four_digits(a.year as int), four_digits(b.year as int), dash, dash);
            lemma_lex_le_groups(four_digits(b.year as int), four_digits(a.year as int), dash, dash);
            lemma_lex_le_groups(ga1, gb1, ra2, rb2);
        } else {
            lemma_four_digits_lt(b.year as int, a.year as int);
            lemma_lex_le_groups(four_digits(a.year as int), four_digits(b.year as int), dash, dash);
            lemma_lex_le_groups(four_digits(b.year as int), four_digits(a.year as int), dash, dash);
            lemma_lex_le_groups(ga1, gb1, ra2, rb2);
        }
    } else {
        assert(ga1 =~= gb1);
        lemma_lex_le_groups(ga1, gb1, ra2, rb2);
        if a.month != b.month {
            if a.month < b.month {
                lemma_two_digits_lt(a.month as int, b.month as int);
            } else {
                lemma_two_digits_lt(b.month as int, a.month as int);
            }
            lemma_lex_le_groups(two_digits(a.month as int), two_digits(b.month as int), dash, dash);
            lemma_lex_le_groups(two_digits(b.month as int), two_digits(a.month as int), dash, dash);
            lemma_lex_le_groups(ga2, gb2, ra3, rb3);
        } else {
            assert(ga2 =~= gb2);
            lemma_lex_le_groups(ga2, gb2, ra3, rb3);
            if a.day != b.day {
                if a.day < b.day {
                    lemma_two_digits_lt(a.day as int, b.day as int);
                } else {
                    lemma_two_digits_lt(b.day as int, a.day as int);
                }
                lemma_lex_le_groups(two_digits(a.day as int), two_digits(b.day as int), dash, dash);
                lemma_lex_le_groups(two_digits(b.day as int), two_digits(a.day as int), dash, dash);
                lemma_lex_le_groups(ga3, gb3, ra4, rb4);
            } else {
                assert(ga3 =~= gb3);
                lemma_lex_le_groups(ga3, gb3, ra4, rb4);
                if a.hour != b.hour {
                    if a.hour < b.hour {
                        lemma_two_digits_lt(a.hour as int, b.hour as int);
                    } else {
                        lemma_two_digits_lt(b.hour as int, a.hour as int);
                    }
                    lemma_lex_le_groups(ga4, gb4, ra5, rb5);
                } else {
                    assert(ga4 =~= gb4);
                    lemma_lex_le_groups(ga4, gb4, ra5, rb5);
                    if a.minute != b.minute {
                        if a.minute < b.minute {
                            lemma_two_digits_lt(a.minute as int, b.minute as int);
                        } else {
                            lemma_two_digits_lt(b.minute as int, a.minute as int);
                        }
                        lemma_lex_le_groups(ga5, gb5, ga6, gb6);
                    } else {
                        assert(ga5 =~= gb5);
                        lemma_lex_le_groups(ga5, gb5, ga6, gb6);
                        if a.second == b.second {
                            assert(ga6 =~= gb6);
                            lemma_lex_le_refl(ga6);
                        } else if a.second < b.second {
                            lemma_two_digits_lt(a.second as int, b.second as int);
                        } else {
                            lemma_two_digits_lt(b.second as int, a.second as int);
                        }
                    }
                }
            }
        }
    }
}

/// A generated name's timestamp key is exactly its stamp: the first `'_'`
/// in the name is the one separating stamp and tag.
pub proof fn lemma_name_ts_key(t: Instant, f: Freq)
    ensures
        ts_key(name_chars(t, f)) == stamp_chars(t),
{
    reveal_strlit("_");
    reveal_strlit("-");
    let s = name_chars(t, f);
    let i = stamp_chars(t).len() as int;
    assert(s[i] == '_');
    assert forall|j: int| 0 <= j < i implies s[j] != '_' by {
        assert(s[j] == stamp_chars(t)[j]);
    }
    lemma_ts_key_take(s, i);
    assert(s.take(i) =~= stamp_chars(t));
}

} // verus!
