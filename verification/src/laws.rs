use vstd::prelude::*;

use crate::output_format::OutputFormat;
use crate::semantics::Event;
use crate::semantics::effective_width;
use crate::semantics::event_wf;
use crate::semantics::extract_events;
use crate::semantics::fmt_wf;
use crate::semantics::format_value;
use crate::semantics::lemma_extract_events_cons;
use crate::semantics::lemma_measure_events_cons;
use crate::semantics::lemma_replace_events_cons;
use crate::semantics::lemma_scan_events_wf;
use crate::semantics::lemma_scan_from_literal;
use crate::semantics::lemma_scan_from_placeholder;
use crate::semantics::measure_events;
use crate::semantics::measure_step;
use crate::semantics::replace_events;
use crate::semantics::replace_step;
use crate::semantics::scan;
use crate::semantics::scan_from;
use crate::semantics::spec_extract;
use crate::semantics::spec_measure;
use crate::semantics::spec_replace;

verus! {

/// A replacement rendered under a well-formed directive takes exactly its
/// effective width: its own scalar-value count when plain, at least the
/// field width when aligned, exactly the field width when truncated.
/// Widths count Unicode scalar values, never bytes.
pub proof fn lemma_formatted_width(fmt: OutputFormat, v: Seq<char>)
    requires
        fmt_wf(fmt),
    ensures
        format_value(fmt, v).len() == effective_width(fmt, v.len() as int),
{
}

/// Truncation always produces output of exactly `width` scalar values when
/// the replacement is strictly longer than `width`.
pub proof fn lemma_truncation_exact_width(fmt: OutputFormat, v: Seq<char>, w: u32)
    requires
        fmt_wf(fmt),
        fmt == OutputFormat::LeftAlignTrunc(w) || fmt == OutputFormat::RightAlignTrunc(w) || fmt
            == OutputFormat::RightAlignLTrunc(w),
        v.len() > w,
    ensures
        format_value(fmt, v).len() == w,
{
    lemma_formatted_width(fmt, v);
}

proof fn lemma_plain_suffix(
    kv: Map<Seq<char>, Seq<char>>,
    s: Seq<char>,
    i: int,
    fmt: OutputFormat,
    acc_r: Seq<char>,
    acc_m: Seq<int>,
    acc_e: Seq<Seq<char>>,
)
    requires
        0 <= i <= s.len(),
        acc_m.len() >= 1,
        forall|j: int| i <= j < s.len() ==> s[j] != '%',
    ensures
        replace_events(kv, acc_r, scan_from(s, i, fmt)) == acc_r + s.subrange(i, s.len() as int),
        measure_events(kv, acc_m, scan_from(s, i, fmt)) == acc_m.update(
            0,
            acc_m[0] + (s.len() - i),
        ),
        extract_events(acc_e, scan_from(s, i, fmt)) == acc_e,
    decreases s.len() - i,
{
    if i == s.len() {
        assert(scan_from(s, i, fmt) =~= Seq::<Event>::empty());
        assert(acc_r + s.subrange(i, s.len() as int) =~= acc_r);
        assert(acc_m.update(0, acc_m[0] + (s.len() - i)) =~= acc_m);
    } else {
        lemma_scan_from_literal(s, i, fmt);
        let rest = scan_from(s, i + 1, fmt);
        lemma_replace_events_cons(kv, acc_r, Event::Literal(s[i]), rest);
        lemma_measure_events_cons(kv, acc_m, Event::Literal(s[i]), rest);
        lemma_extract_events_cons(acc_e, Event::Literal(s[i]), rest);
        lemma_plain_suffix(
            kv,
            s,
            i + 1,
            fmt,
            acc_r.push(s[i]),
            acc_m.update(0, acc_m[0] + 1),
            acc_e,
        );
        assert(acc_r.push(s[i]) + s.subrange(i + 1, s.len() as int) =~= acc_r + s.subrange(
            i,
            s.len() as int,
        ));
        assert(acc_m.update(0, acc_m[0] + 1).update(0, acc_m[0] + 1 + (s.len() - (i + 1)))
            =~= acc_m.update(0, acc_m[0] + (s.len() - i)));
    }
}

/// Inputs without `%` are opaque literal text for all three operations:
/// replacing returns the input unchanged, measuring returns exactly the
/// input's scalar-value count, and extraction finds no keys.
pub proof fn lemma_plain_text_passthrough(kv: Map<Seq<char>, Seq<char>>, s: Seq<char>)
    requires
        forall|i: int| 0 <= i < s.len() ==> s[i] != '%',
    ensures
        spec_replace(kv, s) == s,
        spec_measure(kv, s) == seq![s.len() as int],
        spec_extract(s) == Seq::<Seq<char>>::empty(),
{
    lemma_plain_suffix(
        kv,
        s,
        0,
        OutputFormat::Plain,
        Seq::empty(),
        seq![0],
        Seq::<Seq<char>>::empty(),
    );
    assert(Seq::<char>::empty() + s.subrange(0, s.len() as int) =~= s);
    assert(seq![0int].update(0, 0 + (s.len() - 0)) =~= seq![s.len() as int]);
}

proof fn lemma_total_suffix(
    kv: Map<Seq<char>, Seq<char>>,
    evs: Seq<Event>,
    acc_r: Seq<char>,
    acc_m: Seq<int>,
)
    requires
        acc_m.len() >= 1,
        acc_m[0] == acc_r.len(),
        forall|j: int| 0 <= j < evs.len() ==> #[trigger] event_wf(evs[j]),
    ensures
        measure_events(kv, acc_m, evs)[0] == replace_events(kv, acc_r, evs).len(),
    decreases evs.len(),
{
    if evs.len() != 0 {
        let ev = evs[0];
        assert(event_wf(ev));
        let acc_r1 = replace_step(kv, acc_r, ev);
        let acc_m1 = measure_step(kv, acc_m, ev);
        match ev {
            Event::Literal(c) => {},
            Event::Recovered(raw) => {},
            Event::KeyUse { key, raw, fmt } => {
                if kv.contains_key(key) {
                    lemma_formatted_width(fmt, kv[key]);
                }
            },
        }
        assert(acc_m1[0] == acc_r1.len());
        assert forall|j: int| 0 <= j < evs.drop_first().len() implies event_wf(
            #[trigger] evs.drop_first()[j],
        ) by {
            assert(evs.drop_first()[j] == evs[j + 1]);
        }
        lemma_total_suffix(kv, evs.drop_first(), acc_r1, acc_m1);
    }
}

/// Round trip between measuring and replacing: for every mapping and every
/// input, entry 0 of the measured lengths equals the scalar-value count of
/// the replaced output.  In particular this holds for strings whose only
/// placeholders are well-formed `%(key)` placeholders with present keys.
pub proof fn lemma_measure_total_matches_replace(kv: Map<Seq<char>, Seq<char>>, s: Seq<char>)
    ensures
        spec_measure(kv, s)[0] == spec_replace(kv, s).len(),
{
    lemma_scan_events_wf(s, 0, OutputFormat::Plain);
    lemma_total_suffix(kv, scan(s), Seq::empty(), seq![0]);
}

/// `%%` always contributes exactly one literal `%` to the scan, and `%n`
/// exactly one newline, whatever surrounds them and whatever directive is
/// pending.
pub proof fn lemma_escape_placeholders(s: Seq<char>, i: int, fmt: OutputFormat)
    requires
        0 <= i,
        i + 1 < s.len(),
        s[i] == '%',
    ensures
        s[i + 1] == '%' ==> scan_from(s, i, fmt) == seq![Event::Literal('%')] + scan_from(
            s,
            i + 2,
            fmt,
        ),
        s[i + 1] == 'n' ==> scan_from(s, i, fmt) == seq![Event::Literal('\n')] + scan_from(
            s,
            i + 2,
            fmt,
        ),
{
    lemma_scan_from_placeholder(s, i, fmt);
}

} // verus!
