use vstd::prelude::*;

use crate::output_format::OutputFormat;
use crate::parsing_context::ParsingContext;
use crate::semantics::Event;
use crate::semantics::kv_model;
use vstd::hash_map::StringHashMap;

verus! {

/// The views of the items held in an accumulator.
pub open spec fn acc_view<T: DeepView>(v: Seq<T>) -> Seq<<T as DeepView>::V> {
    v.map_values(|x: T| x.deep_view())
}

/// One interpretation of the scan: what happens at each event, described
/// once as a step function over the accumulator (`spec_step`) and realised
/// by the four event hooks.  The grammar engine is generic over this trait,
/// so the scan loop is written and verified once for all interpretations.
pub trait ParsingTask: Sized {
    /// The accumulator element of this interpretation.
    type Item: DeepView;

    /// The final output of this interpretation.
    type Output: DeepView;

    /// The accumulator a fresh context starts with.
    spec fn spec_init() -> Seq<<Self::Item as DeepView>::V>;

    /// How one event transforms the accumulator.
    spec fn spec_step(
        kv: Map<Seq<char>, Seq<char>>,
        acc: Seq<<Self::Item as DeepView>::V>,
        ev: Event,
    ) -> Seq<<Self::Item as DeepView>::V>;

    /// The final output read off the accumulator.
    spec fn spec_done(acc: Seq<<Self::Item as DeepView>::V>) -> <Self::Output as DeepView>::V;

    /// Builds a fresh context over the characters of `inp`.
    fn init<'a>(inp: &str, key_value: &'a StringHashMap<String>) -> (ctx: ParsingContext<
        'a,
        Self::Item,
    >)
        ensures
            ctx.wf(),
            ctx.iter.chars() == inp@,
            ctx.iter.current() == 0,
            ctx.iter.marked() is None,
            ctx.key_value == key_value,
            acc_view(ctx.vout@) == Self::spec_init(),
            ctx.format == OutputFormat::Plain,
    ;

    /// Finishes the scan and returns the accumulated output.
    fn done(ctx: ParsingContext<'_, Self::Item>) -> (out: Self::Output)
        ensures
            out.deep_view() == Self::spec_done(acc_view(ctx.vout@)),
    ;

    /// Recovery from a failed placeholder attempt: the characters between
    /// the mark and the current position are replayed in the way of this
    /// interpretation.
    fn error(ctx: &mut ParsingContext<'_, Self::Item>)
        requires
            old(ctx).wf(),
            old(ctx).iter.marked() is Some,
        ensures
            final(ctx).wf(),
            final(ctx).iter == old(ctx).iter,
            final(ctx).format == old(ctx).format,
            final(ctx).key_value == old(ctx).key_value,
            acc_view(final(ctx).vout@) == Self::spec_step(
                kv_model(old(ctx).key_value@),
                acc_view(old(ctx).vout@),
                Event::Recovered(old(ctx).iter.mark_to_current()),
            ),
    ;

    /// A literal character copied from the input.
    fn process_char(ctx: &mut ParsingContext<'_, Self::Item>, ch: char)
        requires
            old(ctx).wf(),
        ensures
            final(ctx).wf(),
            final(ctx).iter == old(ctx).iter,
            final(ctx).format == old(ctx).format,
            final(ctx).key_value == old(ctx).key_value,
            acc_view(final(ctx).vout@) == Self::spec_step(
                kv_model(old(ctx).key_value@),
                acc_view(old(ctx).vout@),
                Event::Literal(ch),
            ),
    ;

    /// A single-character placeholder (`%n`, `%%`).
    fn process_char_placeholder(ctx: &mut ParsingContext<'_, Self::Item>, ch: char)
        requires
            old(ctx).wf(),
        ensures
            final(ctx).wf(),
            final(ctx).iter == old(ctx).iter,
            final(ctx).format == old(ctx).format,
            final(ctx).key_value == old(ctx).key_value,
            acc_view(final(ctx).vout@) == Self::spec_step(
                kv_model(old(ctx).key_value@),
                acc_view(old(ctx).vout@),
                Event::Literal(ch),
            ),
    ;

    /// A well-formed key placeholder whose raw text stands between the mark
    /// and the current position.
    fn process_str_placeholder(ctx: &mut ParsingContext<'_, Self::Item>, arg: String)
        requires
            old(ctx).wf(),
            old(ctx).iter.marked() is Some,
            crate::semantics::fmt_wf(old(ctx).format),
        ensures
            final(ctx).wf(),
            final(ctx).iter == old(ctx).iter,
            final(ctx).format == old(ctx).format,
            final(ctx).key_value == old(ctx).key_value,
            acc_view(final(ctx).vout@) == Self::spec_step(
                kv_model(old(ctx).key_value@),
                acc_view(old(ctx).vout@),
                Event::KeyUse {
                    key: arg@,
                    raw: old(ctx).iter.mark_to_current(),
                    fmt: old(ctx).format,
                },
            ),
    ;
}

/// The accumulator after running a sequence of events through an
/// interpretation's step function.
pub open spec fn run_events<T: ParsingTask>(
    kv: Map<Seq<char>, Seq<char>>,
    acc: Seq<<T::Item as DeepView>::V>,
    evs: Seq<Event>,
) -> Seq<<T::Item as DeepView>::V>
    decreases evs.len(),
{
    if evs.len() == 0 {
        acc
    } else {
        run_events::<T>(kv, T::spec_step(kv, acc, evs[0]), evs.drop_first())
    }
}

/// Running a non-empty event sequence first takes one step.
pub proof fn lemma_run_events_cons<T: ParsingTask>(
    kv: Map<Seq<char>, Seq<char>>,
    acc: Seq<<T::Item as DeepView>::V>,
    ev: Event,
    evs: Seq<Event>,
)
    ensures
        run_events::<T>(kv, acc, seq![ev] + evs) == run_events::<T>(
            kv,
            T::spec_step(kv, acc, ev),
            evs,
        ),
{
    let cons = seq![ev] + evs;
    assert(cons.len() == evs.len() + 1);
    assert(cons[0] == ev);
    assert(cons.drop_first() =~= evs);
}

} // verus!
