use vstd::prelude::*;

use crate::output_format::OutputFormat;
use crate::parsing_context::ParsingContext;
use crate::parsing_task::ParsingTask;
use crate::parsing_task::acc_view;
use crate::parsing_task::run_events;
use crate::peek_char_iterator::PeekCharIterator;
use crate::semantics::Event;
use crate::semantics::cap_usize;
use crate::semantics::effective_width;
use crate::semantics::kv_model;
use crate::semantics::measure_events_capped;
use crate::semantics::measure_step_capped;
use crate::text::chars_of;
use vstd::hash_map::StringHashMap;

verus! {

/// The measure interpretation: entry 0 is the running total of rendered
/// scalar values; every resolved key placeholder additionally records its
/// own rendered width.  Literals and verbatim replays count only towards
/// the total.
pub struct ParsingTaskMeasureLengths;

/// On machine integers, the accumulator views are the integers themselves.
proof fn lemma_acc_usize(v: Seq<usize>)
    ensures
        acc_view(v) == v,
{
    assert(acc_view(v) =~= v);
}

/// Adds `inc` to the count at entry 0, clamping at the `usize` limit.
fn add_to_total(vout: &mut Vec<usize>, inc: usize)
    requires
        old(vout)@.len() >= 1,
    ensures
        final(vout)@ == old(vout)@.update(0, cap_usize(old(vout)@[0] + inc)),
{
    let t = vout[0];
    let nt = if t > usize::MAX - inc {
        usize::MAX
    } else {
        t + inc
    };
    vout[0] = nt;
}

impl ParsingTask for ParsingTaskMeasureLengths {
    type Item = usize;

    type Output = Vec<usize>;

    open spec fn spec_init() -> Seq<usize> {
        seq![0usize]
    }

    open spec fn spec_step(kv: Map<Seq<char>, Seq<char>>, acc: Seq<usize>, ev: Event) -> Seq<
        usize,
    > {
        measure_step_capped(kv, acc, ev)
    }

    open spec fn spec_done(acc: Seq<usize>) -> Seq<usize> {
        acc
    }

    fn init<'a>(inp: &str, key_value: &'a StringHashMap<String>) -> (ctx: ParsingContext<
        'a,
        Self::Item,
    >) {
        let vec = chars_of(inp);
        let mut vout = Vec::<usize>::new();
        vout.push(0);
        let ctx = ParsingContext {
            key_value,
            iter: PeekCharIterator::new(vec),
            vout,
            format: OutputFormat::Plain,
        };
        proof {
            lemma_acc_usize(ctx.vout@);
            assert(ctx.vout@ =~= seq![0usize]);
        }
        ctx
    }

    fn done(ctx: ParsingContext<'_, Self::Item>) -> (out: Self::Output) {
        proof {
            lemma_acc_usize(ctx.vout@);
            assert(ctx.vout.deep_view() =~= acc_view(ctx.vout@));
        }
        ctx.vout
    }

    fn error(ctx: &mut ParsingContext<'_, Self::Item>) {
        match ctx.iter.get_mark2cur() {
            Some(v) => {
                if ctx.vout.len() >= 1 {
                    add_to_total(&mut ctx.vout, v.len());
                }
                proof {
                    lemma_acc_usize(old(ctx).vout@);
                    lemma_acc_usize(ctx.vout@);
                }
            },
            None => {
                proof {
                    assert(false);
                }
            },
        }
    }

    fn process_char(ctx: &mut ParsingContext<'_, Self::Item>, ch: char) {
        if ctx.vout.len() >= 1 {
            add_to_total(&mut ctx.vout, 1);
        }
        proof {
            lemma_acc_usize(old(ctx).vout@);
            lemma_acc_usize(ctx.vout@);
        }
    }

    fn process_char_placeholder(ctx: &mut ParsingContext<'_, Self::Item>, ch: char) {
        if ctx.vout.len() >= 1 {
            add_to_total(&mut ctx.vout, 1);
        }
        proof {
            lemma_acc_usize(old(ctx).vout@);
            lemma_acc_usize(ctx.vout@);
        }
    }

    fn process_str_placeholder(ctx: &mut ParsingContext<'_, Self::Item>, arg: String) {
        let repl = match ctx.key_value.get(arg.as_str()) {
            Some(r) => r,
            None => {
                Self::error(ctx);
                return ;
            },
        };
        let repl_chars = chars_of(repl.as_str());
        let repl_c = repl_chars.len();
        let ghost kv = kv_model(old(ctx).key_value@);
        proof {
            assert(repl_chars@ == kv[arg@]);
        }
        let eff: usize = match ctx.format {
            OutputFormat::Plain => repl_c,
            OutputFormat::LeftAlign(width) => {
                if repl_c >= width as usize {
                    repl_c
                } else {
                    width as usize
                }
            },
            OutputFormat::RightAlign(width) => {
                if repl_c >= width as usize {
                    repl_c
                } else {
                    width as usize
                }
            },
            OutputFormat::LeftAlignTrunc(width) => width as usize,
            OutputFormat::RightAlignTrunc(width) => width as usize,
            OutputFormat::RightAlignLTrunc(width) => width as usize,
        };
        proof {
            assert(eff as int == effective_width(old(ctx).format, kv[arg@].len() as int));
        }
        if ctx.vout.len() >= 1 {
            add_to_total(&mut ctx.vout, eff);
            ctx.vout.push(eff);
            proof {
                assert(cap_usize(eff as int) == eff);
            }
        }
        proof {
            lemma_acc_usize(old(ctx).vout@);
            lemma_acc_usize(ctx.vout@);
        }
    }
}

/// Running the scan's events through the measure interpretation is the
/// clamped measuring fold.
pub proof fn lemma_run_events_measure(
    kv: Map<Seq<char>, Seq<char>>,
    acc: Seq<usize>,
    evs: Seq<Event>,
)
    ensures
        run_events::<ParsingTaskMeasureLengths>(kv, acc, evs) == measure_events_capped(
            kv,
            acc,
            evs,
        ),
    decreases evs.len(),
{
    if evs.len() != 0 {
        lemma_run_events_measure(kv, measure_step_capped(kv, acc, evs[0]), evs.drop_first());
    }
}

} // verus!
