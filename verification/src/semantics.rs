use vstd::prelude::*;

use crate::output_format::OutputFormat;

verus! {

broadcast use vstd::seq::group_seq_axioms;

// ---------------------------------------------------------------------------
// Events
//
// One forward scan of the input is modelled as a sequence of events.  A
// literal character and the expansion of `%n` / `%%` both contribute a
// `Literal` event; a malformed placeholder (or, later, an unresolved key)
// is replayed verbatim as a `Recovered` event; a well-formed `%(key)`
// placeholder contributes a `KeyUse` event carrying the alignment directive
// pending at that point.  Format directives only change the scan state and
// contribute no event of their own.
// ---------------------------------------------------------------------------
/// One observable step of the single forward scan.
pub enum Event {
    /// A character copied or produced verbatim: a literal input character or
    /// the expansion of `%n` / `%%`.
    Literal(char),
    /// The raw characters of a failed placeholder attempt, from the `%` that
    /// started it up to the position where parsing stopped.
    Recovered(Seq<char>),
    /// A well-formed key placeholder `%(key)`, its raw text, and the
    /// alignment directive pending when it was reached.
    KeyUse { key: Seq<char>, raw: Seq<char>, fmt: OutputFormat },
}

/// The characters allowed in a key and in a directive keyword.
pub open spec fn is_key_char(c: char) -> bool {
    ||| ('0' <= c && c <= '9')
    ||| ('a' <= c && c <= 'z')
    ||| ('A' <= c && c <= 'Z')
    ||| c == '_'
    ||| c == '+'
    ||| c == '*'
    ||| c == '/'
    ||| c == 'ä'
    ||| c == 'ö'
    ||| c == 'ü'
    ||| c == 'ß'
    ||| c == '?'
}

// ---------------------------------------------------------------------------
// Maximal character runs
// ---------------------------------------------------------------------------
/// First position at or after `i` whose character is not a key character
/// (or the end of the input).
pub open spec fn key_run_end(s: Seq<char>, i: int) -> int
    decreases s.len() - i,
{
    if i < 0 || i >= s.len() {
        i
    } else if is_key_char(s[i]) {
        key_run_end(s, i + 1)
    } else {
        i
    }
}

/// First position at or after `i` whose character is not a space.
pub open spec fn space_run_end(s: Seq<char>, i: int) -> int
    decreases s.len() - i,
{
    if i < 0 || i >= s.len() {
        i
    } else if s[i] == ' ' {
        space_run_end(s, i + 1)
    } else {
        i
    }
}

/// First position at or after `i` whose character is not a decimal digit.
pub open spec fn digit_run_end(s: Seq<char>, i: int) -> int
    decreases s.len() - i,
{
    if i < 0 || i >= s.len() {
        i
    } else if '0' <= s[i] && s[i] <= '9' {
        digit_run_end(s, i + 1)
    } else {
        i
    }
}

pub proof fn lemma_key_run_end(s: Seq<char>, i: int)
    requires
        0 <= i <= s.len(),
    ensures
        i <= key_run_end(s, i) <= s.len(),
        forall|j: int| i <= j < key_run_end(s, i) ==> is_key_char(s[j]),
        key_run_end(s, i) < s.len() ==> !is_key_char(s[key_run_end(s, i)]),
    decreases s.len() - i,
{
    if i < s.len() && is_key_char(s[i]) {
        lemma_key_run_end(s, i + 1);
    }
}

pub proof fn lemma_space_run_end(s: Seq<char>, i: int)
    requires
        0 <= i <= s.len(),
    ensures
        i <= space_run_end(s, i) <= s.len(),
        forall|j: int| i <= j < space_run_end(s, i) ==> s[j] == ' ',
        space_run_end(s, i) < s.len() ==> s[space_run_end(s, i)] != ' ',
    decreases s.len() - i,
{
    if i < s.len() && s[i] == ' ' {
        lemma_space_run_end(s, i + 1);
    }
}

pub proof fn lemma_digit_run_end(s: Seq<char>, i: int)
    requires
        0 <= i <= s.len(),
    ensures
        i <= digit_run_end(s, i) <= s.len(),
        forall|j: int| i <= j < digit_run_end(s, i) ==> '0' <= s[j] && s[j] <= '9',
        digit_run_end(s, i) < s.len() ==> !('0' <= s[digit_run_end(s, i)] && s[digit_run_end(s, i)]
            <= '9'),
    decreases s.len() - i,
{
    if i < s.len() && '0' <= s[i] && s[i] <= '9' {
        lemma_digit_run_end(s, i + 1);
    }
}

// ---------------------------------------------------------------------------
// Decimal widths
// ---------------------------------------------------------------------------
/// Numeric value of a digit character.
pub open spec fn digit_of(c: char) -> int {
    c as int - '0' as int
}

/// Value of the decimal digits `s[i..j)`.
pub open spec fn digits_val(s: Seq<char>, i: int, j: int) -> int
    decreases j - i,
{
    if j <= i {
        0
    } else {
        digits_val(s, i, j - 1) * 10 + digit_of(s[j - 1])
    }
}

pub proof fn lemma_digits_val_bounds(s: Seq<char>, i: int, j: int)
    requires
        i <= j,
        forall|k: int| i <= k < j ==> '0' <= s[k] && s[k] <= '9',
    ensures
        digits_val(s, i, j) >= 0,
        i < j && s[i] != '0' ==> digits_val(s, i, j) >= 1,
    decreases j - i,
{
    if i < j {
        lemma_digits_val_bounds(s, i, j - 1);
    }
}

// ---------------------------------------------------------------------------
// Parsing one placeholder
//
// `parse_ph(s, i)` describes what one placeholder attempt starting at the
// `%` at position `i` consumes and produces.  `consumed` counts characters
// from the `%` on; the raw text of the attempt is `s.subrange(i, i +
// consumed)`.
// ---------------------------------------------------------------------------
/// Result of one placeholder attempt.
pub enum PhOutcome {
    /// `%n` or `%%`: a single character is produced.
    PhChar(char),
    /// `%(key)`: the key is delivered.
    PhKey(Seq<char>),
    /// A format directive: the pending alignment changes.
    PhFmt(OutputFormat),
    /// A grammar error: the consumed characters are replayed verbatim.
    PhErr,
}

/// What one placeholder attempt consumes, and its outcome.
pub struct PhParse {
    pub consumed: int,
    pub outcome: PhOutcome,
}

pub open spec fn trunc_keyword() -> Seq<char> {
    seq!['t', 'r', 'u', 'n', 'c']
}

pub open spec fn ltrunc_keyword() -> Seq<char> {
    seq!['l', 't', 'r', 'u', 'n', 'c']
}

/// A key placeholder attempt: `s[i] == '%'`, `s[i+1] == '('`.  The maximal
/// run of key characters after the `(` must end at a `)`; ending at the end
/// of the input or at any other character is an error.
pub open spec fn parse_key(s: Seq<char>, i: int) -> PhParse {
    let j = key_run_end(s, i + 2);
    if j >= s.len() {
        PhParse { consumed: s.len() - i, outcome: PhOutcome::PhErr }
    } else if s[j] == ')' {
        PhParse { consumed: j + 1 - i, outcome: PhOutcome::PhKey(s.subrange(i + 2, j)) }
    } else {
        PhParse { consumed: j - i, outcome: PhOutcome::PhErr }
    }
}

/// The keyword part of a format directive, after the comma at `p2`.
pub open spec fn parse_fmt_keyword(s: Seq<char>, i: int, right: bool, w: u32, p2: int) -> PhParse {
    let p3 = space_run_end(s, p2 + 1);
    let p4 = key_run_end(s, p3);
    if p4 >= s.len() {
        PhParse { consumed: s.len() - i, outcome: PhOutcome::PhErr }
    } else {
        let kw = s.subrange(p3, p4);
        let p5 = space_run_end(s, p4);
        let p6 = if p5 < s.len() {
            p5 + 1
        } else {
            p5
        };
        if !right && kw == trunc_keyword() {
            PhParse { consumed: p6 - i, outcome: PhOutcome::PhFmt(OutputFormat::LeftAlignTrunc(w)) }
        } else if right && kw == trunc_keyword() {
            PhParse {
                consumed: p6 - i,
                outcome: PhOutcome::PhFmt(OutputFormat::RightAlignTrunc(w)),
            }
        } else if right && kw == ltrunc_keyword() {
            PhParse {
                consumed: p6 - i,
                outcome: PhOutcome::PhFmt(OutputFormat::RightAlignLTrunc(w)),
            }
        } else {
            PhParse { consumed: p6 - i, outcome: PhOutcome::PhErr }
        }
    }
}

/// A format directive attempt: `s[i] == '%'`, `s[i+1]` is `<` or `>`.
pub open spec fn parse_fmt(s: Seq<char>, i: int, right: bool) -> PhParse {
    if i + 2 >= s.len() || s[i + 2] != '(' {
        PhParse { consumed: 2, outcome: PhOutcome::PhErr }
    } else {
        let p0 = space_run_end(s, i + 3);
        if p0 >= s.len() || !('1' <= s[p0] && s[p0] <= '9') {
            PhParse { consumed: p0 - i, outcome: PhOutcome::PhErr }
        } else {
            let p1 = digit_run_end(s, p0);
            let v = digits_val(s, p0, p1);
            if v > u32::MAX as int {
                PhParse { consumed: p1 - i, outcome: PhOutcome::PhErr }
            } else {
                let p2 = space_run_end(s, p1);
                if p2 < s.len() && s[p2] == ',' {
                    parse_fmt_keyword(s, i, right, v as u32, p2)
                } else if p2 < s.len() && s[p2] == ')' {
                    PhParse {
                        consumed: p2 + 1 - i,
                        outcome: PhOutcome::PhFmt(
                            if right {
                                OutputFormat::RightAlign(v as u32)
                            } else {
                                OutputFormat::LeftAlign(v as u32)
                            },
                        ),
                    }
                } else {
                    PhParse { consumed: p2 - i, outcome: PhOutcome::PhErr }
                }
            }
        }
    }
}

/// One placeholder attempt at the `%` at position `i`.
pub open spec fn parse_ph(s: Seq<char>, i: int) -> PhParse
    recommends
        0 <= i < s.len(),
        s[i] == '%',
{
    if i + 1 >= s.len() {
        // end of input right after `%`
        PhParse { consumed: 1, outcome: PhOutcome::PhErr }
    } else {
        let c = s[i + 1];
        if c == 'n' {
            PhParse { consumed: 2, outcome: PhOutcome::PhChar('\n') }
        } else if c == '%' {
            PhParse { consumed: 2, outcome: PhOutcome::PhChar('%') }
        } else if c == '(' {
            parse_key(s, i)
        } else if c == '<' {
            parse_fmt(s, i, false)
        } else if c == '>' {
            parse_fmt(s, i, true)
        } else {
            PhParse { consumed: 2, outcome: PhOutcome::PhErr }
        }
    }
}

/// Every alignment directive the grammar produces has a width of at least 1.
pub open spec fn fmt_wf(f: OutputFormat) -> bool {
    match f {
        OutputFormat::Plain => true,
        OutputFormat::LeftAlign(w) => w >= 1,
        OutputFormat::LeftAlignTrunc(w) => w >= 1,
        OutputFormat::RightAlign(w) => w >= 1,
        OutputFormat::RightAlignTrunc(w) => w >= 1,
        OutputFormat::RightAlignLTrunc(w) => w >= 1,
    }
}

pub proof fn lemma_parse_fmt_wf(s: Seq<char>, i: int, right: bool)
    requires
        0 <= i,
    ensures
        parse_fmt(s, i, right).outcome matches PhOutcome::PhFmt(f) ==> fmt_wf(f),
{
    if i + 2 < s.len() && s[i + 2] == '(' {
        lemma_space_run_end(s, i + 3);
        let p0 = space_run_end(s, i + 3);
        if p0 < s.len() && '1' <= s[p0] && s[p0] <= '9' {
            lemma_digit_run_end(s, p0);
            let p1 = digit_run_end(s, p0);
            assert(digit_run_end(s, p0) == digit_run_end(s, p0 + 1));
            lemma_digit_run_end(s, p0 + 1);
            lemma_digits_val_bounds(s, p0, p1);
        }
    }
}

pub proof fn lemma_parse_ph_wf(s: Seq<char>, i: int)
    requires
        0 <= i,
    ensures
        parse_ph(s, i).outcome matches PhOutcome::PhFmt(f) ==> fmt_wf(f),
{
    lemma_parse_fmt_wf(s, i, false);
    lemma_parse_fmt_wf(s, i, true);
}

pub proof fn lemma_parse_fmt_bounds(s: Seq<char>, i: int, right: bool)
    requires
        0 <= i,
        i + 1 < s.len(),
    ensures
        1 <= parse_fmt(s, i, right).consumed <= s.len() - i,
{
    if !(i + 2 >= s.len() || s[i + 2] != '(') {
        lemma_space_run_end(s, i + 3);
        let p0 = space_run_end(s, i + 3);
        if !(p0 >= s.len() || !('1' <= s[p0] && s[p0] <= '9')) {
            lemma_digit_run_end(s, p0);
            let p1 = digit_run_end(s, p0);
            lemma_space_run_end(s, p1);
            let p2 = space_run_end(s, p1);
            if p2 < s.len() && s[p2] == ',' {
                lemma_space_run_end(s, p2 + 1);
                let p3 = space_run_end(s, p2 + 1);
                lemma_key_run_end(s, p3);
                let p4 = key_run_end(s, p3);
                if p4 < s.len() {
                    lemma_space_run_end(s, p4);
                }
            }
        }
    }
}

pub proof fn lemma_parse_ph_bounds(s: Seq<char>, i: int)
    requires
        0 <= i < s.len(),
        s[i] == '%',
    ensures
        1 <= parse_ph(s, i).consumed <= s.len() - i,
{
    if i + 1 < s.len() {
        let c = s[i + 1];
        if c == '(' {
            lemma_key_run_end(s, i + 2);
        } else if c == '<' {
            lemma_parse_fmt_bounds(s, i, false);
        } else if c == '>' {
            lemma_parse_fmt_bounds(s, i, true);
        }
    }
}

// ---------------------------------------------------------------------------
// The scan
// ---------------------------------------------------------------------------
/// A literal-character event.
pub open spec fn literal_event(c: char) -> Event {
    Event::Literal(c)
}

/// A verbatim-replay event.
pub open spec fn recovered_event(raw: Seq<char>) -> Event {
    Event::Recovered(raw)
}

/// A key-placeholder event.
pub open spec fn key_use_event(key: Seq<char>, raw: Seq<char>, fmt: OutputFormat) -> Event {
    Event::KeyUse { key, raw, fmt }
}

/// The events of one forward scan of `s` starting at position `i`, with the
/// alignment directive `fmt` pending.  A key placeholder consumes the
/// pending directive; a failed attempt leaves it untouched.
pub open spec fn scan_from(s: Seq<char>, i: int, fmt: OutputFormat) -> Seq<Event>
    decreases s.len() - i,
{
    if i < 0 || i >= s.len() {
        Seq::empty()
    } else if s[i] != '%' {
        seq![literal_event(s[i])] + scan_from(s, i + 1, fmt)
    } else {
        let p = parse_ph(s, i);
        let n = if p.consumed < 1 {
            1
        } else if p.consumed > s.len() - i {
            s.len() - i
        } else {
            p.consumed
        };
        let raw = s.subrange(i, i + n);
        match p.outcome {
            PhOutcome::PhChar(c) => seq![literal_event(c)] + scan_from(s, i + n, fmt),
            PhOutcome::PhKey(k) => seq![key_use_event(k, raw, fmt)] + scan_from(
                s,
                i + n,
                OutputFormat::Plain,
            ),
            PhOutcome::PhFmt(f) => scan_from(s, i + n, f),
            PhOutcome::PhErr => seq![recovered_event(raw)] + scan_from(s, i + n, fmt),
        }
    }
}

/// The events of a whole scan of `s`.
pub open spec fn scan(s: Seq<char>) -> Seq<Event> {
    scan_from(s, 0, OutputFormat::Plain)
}

/// A scan at a literal character first records that character.
pub proof fn lemma_scan_from_literal(s: Seq<char>, i: int, fmt: OutputFormat)
    requires
        0 <= i < s.len(),
        s[i] != '%',
    ensures
        scan_from(s, i, fmt) == seq![Event::Literal(s[i])] + scan_from(s, i + 1, fmt),
{
}

/// A scan at a `%` first takes the placeholder attempt's step.
pub proof fn lemma_scan_from_placeholder(s: Seq<char>, i: int, fmt: OutputFormat)
    requires
        0 <= i < s.len(),
        s[i] == '%',
    ensures
        ({
            let p = parse_ph(s, i);
            let n = p.consumed;
            let raw = s.subrange(i, i + n);
            match p.outcome {
                PhOutcome::PhChar(c) => scan_from(s, i, fmt) == seq![Event::Literal(c)]
                    + scan_from(s, i + n, fmt),
                PhOutcome::PhKey(k) => scan_from(s, i, fmt) == seq![
                    Event::KeyUse { key: k, raw, fmt },
                ] + scan_from(s, i + n, OutputFormat::Plain),
                PhOutcome::PhFmt(f) => scan_from(s, i, fmt) == scan_from(s, i + n, f),
                PhOutcome::PhErr => scan_from(s, i, fmt) == seq![Event::Recovered(raw)]
                    + scan_from(s, i + n, fmt),
            }
        }),
{
    lemma_parse_ph_bounds(s, i);
}

// ---------------------------------------------------------------------------
// The mapping, as a mathematical map
// ---------------------------------------------------------------------------
/// The key/value mapping as a map over character sequences.
pub open spec fn kv_model(m: Map<Seq<char>, String>) -> Map<Seq<char>, Seq<char>> {
    Map::new(|k: Seq<char>| m.contains_key(k), |k: Seq<char>| m[k]@)
}

// ---------------------------------------------------------------------------
// Alignment and truncation
// ---------------------------------------------------------------------------
/// `n` spaces (none if `n` is not positive).
pub open spec fn spaces(n: int) -> Seq<char> {
    if n <= 0 {
        Seq::empty()
    } else {
        Seq::new(n as nat, |j: int| ' ')
    }
}

/// A replacement value rendered under a pending directive.  Widths count
/// Unicode scalar values; the grammar only produces widths of at least 1.
pub open spec fn format_value(fmt: OutputFormat, v: Seq<char>) -> Seq<char> {
    let c = v.len() as int;
    match fmt {
        OutputFormat::Plain => v,
        OutputFormat::LeftAlign(w) => v + spaces(w - c),
        OutputFormat::RightAlign(w) => spaces(w - c) + v,
        OutputFormat::LeftAlignTrunc(w) => if c <= w {
            v + spaces(w - c)
        } else {
            v.subrange(0, w - 1) + seq!['…']
        },
        OutputFormat::RightAlignTrunc(w) => if c <= w {
            spaces(w - c) + v
        } else {
            v.subrange(0, w - 1) + seq!['…']
        },
        OutputFormat::RightAlignLTrunc(w) => if c <= w {
            spaces(w - c) + v
        } else {
            seq!['…'] + v.subrange(c - (w - 1), c)
        },
    }
}

/// The rendered width of a replacement of `c` scalar values under a pending
/// directive: plain values keep their length, aligned values take at least
/// the field width, truncated values take exactly the field width.
pub open spec fn effective_width(fmt: OutputFormat, c: int) -> int {
    match fmt {
        OutputFormat::Plain => c,
        OutputFormat::LeftAlign(w) => if c >= w {
            c
        } else {
            w as int
        },
        OutputFormat::RightAlign(w) => if c >= w {
            c
        } else {
            w as int
        },
        OutputFormat::LeftAlignTrunc(w) => w as int,
        OutputFormat::RightAlignTrunc(w) => w as int,
        OutputFormat::RightAlignLTrunc(w) => w as int,
    }
}

// ---------------------------------------------------------------------------
// The three interpretations, as folds over the events
// ---------------------------------------------------------------------------
/// Replacement: literals are copied, failed attempts are replayed verbatim,
/// resolved keys are rendered under the pending directive, and unresolved
/// keys are replayed verbatim like failed attempts.
pub open spec fn replace_step(kv: Map<Seq<char>, Seq<char>>, acc: Seq<char>, ev: Event) -> Seq<
    char,
> {
    match ev {
        Event::Literal(c) => acc.push(c),
        Event::Recovered(raw) => acc + raw,
        Event::KeyUse { key, raw, fmt } => if kv.contains_key(key) {
            acc + format_value(fmt, kv[key])
        } else {
            acc + raw
        },
    }
}

pub open spec fn replace_events(
    kv: Map<Seq<char>, Seq<char>>,
    acc: Seq<char>,
    evs: Seq<Event>,
) -> Seq<char>
    decreases evs.len(),
{
    if evs.len() == 0 {
        acc
    } else {
        replace_events(kv, replace_step(kv, acc, evs[0]), evs.drop_first())
    }
}

/// The output of `replace_placeholders`.
pub open spec fn spec_replace(kv: Map<Seq<char>, Seq<char>>, s: Seq<char>) -> Seq<char> {
    replace_events(kv, Seq::empty(), scan(s))
}

/// Measuring: entry 0 is the running total of rendered scalar values;
/// every resolved key placeholder additionally records its own rendered
/// width.  Literals and replayed text only count towards the total.
pub open spec fn measure_step(kv: Map<Seq<char>, Seq<char>>, acc: Seq<int>, ev: Event) -> Seq<
    int,
> {
    match ev {
        Event::Literal(c) => acc.update(0, acc[0] + 1),
        Event::Recovered(raw) => acc.update(0, acc[0] + raw.len()),
        Event::KeyUse { key, raw, fmt } => if kv.contains_key(key) {
            let e = effective_width(fmt, kv[key].len() as int);
            acc.update(0, acc[0] + e).push(e)
        } else {
            acc.update(0, acc[0] + raw.len())
        },
    }
}

pub open spec fn measure_events(
    kv: Map<Seq<char>, Seq<char>>,
    acc: Seq<int>,
    evs: Seq<Event>,
) -> Seq<int>
    decreases evs.len(),
{
    if evs.len() == 0 {
        acc
    } else {
        measure_events(kv, measure_step(kv, acc, evs[0]), evs.drop_first())
    }
}

/// The output of `measure_lengths`.
pub open spec fn spec_measure(kv: Map<Seq<char>, Seq<char>>, s: Seq<char>) -> Seq<int> {
    measure_events(kv, seq![0], scan(s))
}

pub proof fn lemma_replace_events_cons(
    kv: Map<Seq<char>, Seq<char>>,
    acc: Seq<char>,
    ev: Event,
    evs: Seq<Event>,
)
    ensures
        replace_events(kv, acc, seq![ev] + evs) == replace_events(
            kv,
            replace_step(kv, acc, ev),
            evs,
        ),
{
    assert((seq![ev] + evs)[0] == ev);
    assert((seq![ev] + evs).drop_first() =~= evs);
}

pub proof fn lemma_measure_events_cons(
    kv: Map<Seq<char>, Seq<char>>,
    acc: Seq<int>,
    ev: Event,
    evs: Seq<Event>,
)
    ensures
        measure_events(kv, acc, seq![ev] + evs) == measure_events(
            kv,
            measure_step(kv, acc, ev),
            evs,
        ),
{
    assert((seq![ev] + evs)[0] == ev);
    assert((seq![ev] + evs).drop_first() =~= evs);
}

pub proof fn lemma_extract_events_cons(acc: Seq<Seq<char>>, ev: Event, evs: Seq<Event>)
    ensures
        extract_events(acc, seq![ev] + evs) == extract_events(extract_step(acc, ev), evs),
{
    assert((seq![ev] + evs)[0] == ev);
    assert((seq![ev] + evs).drop_first() =~= evs);
}

/// A well-formed event carries a well-formed directive.
pub open spec fn event_wf(ev: Event) -> bool {
    match ev {
        Event::KeyUse { key, raw, fmt } => fmt_wf(fmt),
        _ => true,
    }
}

proof fn lemma_events_wf_cons(e: Event, rest: Seq<Event>)
    requires
        event_wf(e),
        forall|j: int| 0 <= j < rest.len() ==> #[trigger] event_wf(rest[j]),
    ensures
        forall|j: int| 0 <= j < (seq![e] + rest).len() ==> #[trigger] event_wf((seq![e] + rest)[j]),
{
    assert forall|j: int| 0 <= j < (seq![e] + rest).len() implies event_wf(
        (seq![e] + rest)[j],
    ) by {
        if j > 0 {
            assert((seq![e] + rest)[j] == rest[j - 1]);
        } else {
            assert((seq![e] + rest)[0] == e);
        }
    }
}

/// Every event of a scan started under a well-formed directive is well
/// formed: the grammar only produces widths of at least 1.
pub proof fn lemma_scan_events_wf(s: Seq<char>, i: int, fmt: OutputFormat)
    requires
        fmt_wf(fmt),
    ensures
        forall|j: int|
            0 <= j < scan_from(s, i, fmt).len() ==> #[trigger] event_wf(scan_from(s, i, fmt)[j]),
    decreases s.len() - i,
{
    if i < 0 || i >= s.len() {
    } else if s[i] != '%' {
        lemma_scan_events_wf(s, i + 1, fmt);
        lemma_events_wf_cons(literal_event(s[i]), scan_from(s, i + 1, fmt));
    } else {
        lemma_parse_ph_wf(s, i);
        let p = parse_ph(s, i);
        let n = if p.consumed < 1 {
            1
        } else if p.consumed > s.len() - i {
            s.len() - i
        } else {
            p.consumed
        };
        let raw = s.subrange(i, i + n);
        match p.outcome {
            PhOutcome::PhChar(c) => {
                lemma_scan_events_wf(s, i + n, fmt);
                lemma_events_wf_cons(literal_event(c), scan_from(s, i + n, fmt));
            },
            PhOutcome::PhKey(k) => {
                lemma_scan_events_wf(s, i + n, OutputFormat::Plain);
                lemma_events_wf_cons(
                    key_use_event(k, raw, fmt),
                    scan_from(s, i + n, OutputFormat::Plain),
                );
            },
            PhOutcome::PhFmt(f) => {
                lemma_scan_events_wf(s, i + n, f);
            },
            PhOutcome::PhErr => {
                lemma_scan_events_wf(s, i + n, fmt);
                lemma_events_wf_cons(recovered_event(raw), scan_from(s, i + n, fmt));
            },
        }
    }
}

// ---------------------------------------------------------------------------
// Measuring over machine integers
//
// The accumulator the engine actually carries holds `usize` counts.  On any
// total that fits in `usize` the clamped fold below coincides with the
// mathematical one (`lemma_measure_capped_matches`).
// ---------------------------------------------------------------------------
/// `n` clamped into `usize`.
pub open spec fn cap_usize(n: int) -> usize {
    if n > usize::MAX {
        usize::MAX
    } else if n < 0 {
        0
    } else {
        n as usize
    }
}

/// The views of a `usize` sequence as mathematical integers.
pub open spec fn as_ints(v: Seq<usize>) -> Seq<int> {
    v.map_values(|n: usize| n as int)
}

/// `measure_step` over machine integers, with clamped additions.
pub open spec fn measure_step_capped(
    kv: Map<Seq<char>, Seq<char>>,
    acc: Seq<usize>,
    ev: Event,
) -> Seq<usize> {
    if acc.len() == 0 {
        acc
    } else {
        match ev {
            Event::Literal(c) => acc.update(0, cap_usize(acc[0] + 1)),
            Event::Recovered(raw) => acc.update(0, cap_usize(acc[0] + raw.len())),
            Event::KeyUse { key, raw, fmt } => if kv.contains_key(key) {
                let e = effective_width(fmt, kv[key].len() as int);
                acc.update(0, cap_usize(acc[0] + e)).push(cap_usize(e))
            } else {
                acc.update(0, cap_usize(acc[0] + raw.len()))
            },
        }
    }
}

pub open spec fn measure_events_capped(
    kv: Map<Seq<char>, Seq<char>>,
    acc: Seq<usize>,
    evs: Seq<Event>,
) -> Seq<usize>
    decreases evs.len(),
{
    if evs.len() == 0 {
        acc
    } else {
        measure_events_capped(kv, measure_step_capped(kv, acc, evs[0]), evs.drop_first())
    }
}

/// The running total never shrinks.
pub proof fn lemma_measure_total_monotone(
    kv: Map<Seq<char>, Seq<char>>,
    acc: Seq<int>,
    evs: Seq<Event>,
)
    requires
        acc.len() >= 1,
    ensures
        measure_events(kv, acc, evs).len() >= acc.len(),
        measure_events(kv, acc, evs)[0] >= acc[0],
    decreases evs.len(),
{
    if evs.len() != 0 {
        lemma_measure_total_monotone(kv, measure_step(kv, acc, evs[0]), evs.drop_first());
    }
}

/// When the mathematical total fits in `usize`, the clamped fold computes
/// exactly the mathematical one.
pub proof fn lemma_measure_capped_matches(
    kv: Map<Seq<char>, Seq<char>>,
    accu: Seq<usize>,
    evs: Seq<Event>,
)
    requires
        accu.len() >= 1,
        measure_events(kv, as_ints(accu), evs)[0] <= usize::MAX,
    ensures
        as_ints(measure_events_capped(kv, accu, evs)) == measure_events(kv, as_ints(accu), evs),
    decreases evs.len(),
{
    if evs.len() != 0 {
        let ev = evs[0];
        let acci = as_ints(accu);
        let acc1i = measure_step(kv, acci, ev);
        let acc1u = measure_step_capped(kv, accu, ev);
        lemma_measure_total_monotone(kv, acc1i, evs.drop_first());
        assert(as_ints(acc1u) =~= acc1i);
        lemma_measure_capped_matches(kv, acc1u, evs.drop_first());
    }
}

/// Key extraction: every well-formed key placeholder contributes its key, in
/// encounter order, whether or not the mapping resolves it.
pub open spec fn extract_step(acc: Seq<Seq<char>>, ev: Event) -> Seq<Seq<char>> {
    match ev {
        Event::KeyUse { key, raw, fmt } => acc.push(key),
        _ => acc,
    }
}

pub open spec fn extract_events(acc: Seq<Seq<char>>, evs: Seq<Event>) -> Seq<Seq<char>>
    decreases evs.len(),
{
    if evs.len() == 0 {
        acc
    } else {
        extract_events(extract_step(acc, evs[0]), evs.drop_first())
    }
}

/// The output of `extract_placeholder_keys`.
pub open spec fn spec_extract(s: Seq<char>) -> Seq<Seq<char>> {
    extract_events(Seq::empty(), scan(s))
}

} // verus!
