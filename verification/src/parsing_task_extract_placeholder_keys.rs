use vstd::prelude::*;

use crate::output_format::OutputFormat;
use crate::parsing_context::ParsingContext;
use crate::parsing_task::ParsingTask;
use crate::parsing_task::acc_view;
use crate::parsing_task::run_events;
use crate::peek_char_iterator::PeekCharIterator;
use crate::semantics::Event;
use crate::semantics::extract_events;
use crate::semantics::extract_step;
use crate::text::chars_of;
use vstd::hash_map::StringHashMap;

verus! {

/// The key-extraction interpretation: every well-formed key placeholder
/// contributes its key, in encounter order, whether or not the mapping
/// resolves it; everything else is ignored.
pub struct ParsingTaskExtractPlaceholderKeys;

impl ParsingTask for ParsingTaskExtractPlaceholderKeys {
    type Item = String;

    type Output = Vec<String>;

    open spec fn spec_init() -> Seq<Seq<char>> {
        Seq::empty()
    }

    open spec fn spec_step(kv: Map<Seq<char>, Seq<char>>, acc: Seq<Seq<char>>, ev: Event) -> Seq<
        Seq<char>,
    > {
        extract_step(acc, ev)
    }

    open spec fn spec_done(acc: Seq<Seq<char>>) -> Seq<Seq<char>> {
        acc
    }

    fn init<'a>(inp: &str, key_value: &'a StringHashMap<String>) -> (ctx: ParsingContext<
        'a,
        Self::Item,
    >) {
        let vec = chars_of(inp);
        let ctx = ParsingContext {
            key_value,
            iter: PeekCharIterator::new(vec),
            vout: Vec::<String>::new(),
            format: OutputFormat::Plain,
        };
        proof {
            assert(acc_view(ctx.vout@) =~= Self::spec_init());
        }
        ctx
    }

    fn done(ctx: ParsingContext<'_, Self::Item>) -> (out: Self::Output) {
        proof {
            assert(ctx.vout.deep_view() =~= acc_view(ctx.vout@));
        }
        ctx.vout
    }

    fn error(ctx: &mut ParsingContext<'_, Self::Item>) {
    }

    fn process_char(ctx: &mut ParsingContext<'_, Self::Item>, ch: char) {
    }

    fn process_char_placeholder(ctx: &mut ParsingContext<'_, Self::Item>, ch: char) {
    }

    fn process_str_placeholder(ctx: &mut ParsingContext<'_, Self::Item>, arg: String) {
        let ghost key = arg@;
        ctx.vout.push(arg);
        proof {
            assert(acc_view(ctx.vout@) =~= acc_view(old(ctx).vout@).push(key));
        }
    }
}

/// Running the scan's events through the extraction interpretation is the
/// extraction fold.
pub proof fn lemma_run_events_extract(
    kv: Map<Seq<char>, Seq<char>>,
    acc: Seq<Seq<char>>,
    evs: Seq<Event>,
)
    ensures
        run_events::<ParsingTaskExtractPlaceholderKeys>(kv, acc, evs) == extract_events(acc, evs),
    decreases evs.len(),
{
    if evs.len() != 0 {
        lemma_run_events_extract(kv, extract_step(acc, evs[0]), evs.drop_first());
    }
}

} // verus!
