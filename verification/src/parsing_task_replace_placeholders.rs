use vstd::prelude::*;

use crate::output_format::OutputFormat;
use crate::parsing_context::ParsingContext;
use crate::parsing_task::ParsingTask;
use crate::parsing_task::acc_view;
use crate::parsing_task::run_events;
use crate::peek_char_iterator::PeekCharIterator;
use crate::semantics::Event;
use crate::semantics::kv_model;
use crate::semantics::replace_events;
use crate::semantics::replace_step;
use crate::semantics::spaces;
use crate::text::chars_of;
use crate::text::string_from_chars;
use vstd::hash_map::StringHashMap;

verus! {

/// The replace interpretation: literals are copied, resolved keys are
/// rendered under the pending alignment directive, and failed attempts or
/// unresolved keys are replayed verbatim.
pub struct ParsingTaskReplacePlaceholders;

/// On characters, the accumulator views are the characters themselves.
proof fn lemma_acc_char(v: Seq<char>)
    ensures
        acc_view(v) == v,
{
    assert(acc_view(v) =~= v);
}

/// Appends `v[from..to)` to the output.
fn push_char_range(out: &mut Vec<char>, v: &Vec<char>, from: usize, to: usize)
    requires
        from <= to <= v@.len(),
    ensures
        final(out)@ == old(out)@ + v@.subrange(from as int, to as int),
{
    let mut k: usize = from;
    while k < to
        invariant
            from <= k <= to <= v@.len(),
            out@ == old(out)@ + v@.subrange(from as int, k as int),
        decreases to - k,
    {
        out.push(v[k]);
        proof {
            assert(out@ =~= old(out)@ + v@.subrange(from as int, k as int + 1));
        }
        k = k + 1;
    }
}

/// Appends `n` spaces to the output.
fn push_spaces(out: &mut Vec<char>, n: usize)
    ensures
        final(out)@ == old(out)@ + spaces(n as int),
{
    let mut k: usize = 0;
    while k < n
        invariant
            k <= n,
            out@ == old(out)@ + spaces(k as int),
        decreases n - k,
    {
        out.push(' ');
        proof {
            assert(out@ =~= old(out)@ + spaces(k as int + 1));
        }
        k = k + 1;
    }
}

impl ParsingTask for ParsingTaskReplacePlaceholders {
    type Item = char;

    type Output = String;

    open spec fn spec_init() -> Seq<char> {
        Seq::empty()
    }

    open spec fn spec_step(kv: Map<Seq<char>, Seq<char>>, acc: Seq<char>, ev: Event) -> Seq<
        char,
    > {
        replace_step(kv, acc, ev)
    }

    open spec fn spec_done(acc: Seq<char>) -> Seq<char> {
        acc
    }

    fn init<'a>(inp: &str, key_value: &'a StringHashMap<String>) -> (ctx: ParsingContext<
        'a,
        Self::Item,
    >) {
        let vec = chars_of(inp);
        let ctx = ParsingContext {
            key_value,
            iter: PeekCharIterator::new(vec),
            vout: Vec::<char>::new(),
            format: OutputFormat::Plain,
        };
        proof {
            lemma_acc_char(ctx.vout@);
        }
        ctx
    }

    fn done(ctx: ParsingContext<'_, Self::Item>) -> (out: Self::Output) {
        proof {
            lemma_acc_char(ctx.vout@);
        }
        string_from_chars(ctx.vout)
    }

    fn error(ctx: &mut ParsingContext<'_, Self::Item>) {
        match ctx.iter.get_mark2cur() {
            Some(v) => {
                let n = v.len();
                push_char_range(&mut ctx.vout, &v, 0, n);
                proof {
                    lemma_acc_char(old(ctx).vout@);
                    lemma_acc_char(ctx.vout@);
                    assert(v@.subrange(0, v@.len() as int) =~= v@);
                }
            },
            None => {
                proof {
                    assert(false);
                }
            },
        }
    }

    fn process_char(ctx: &mut ParsingContext<'_, Self::Item>, ch: char) {
        ctx.vout.push(ch);
        proof {
            lemma_acc_char(old(ctx).vout@);
            lemma_acc_char(ctx.vout@);
        }
    }

    fn process_char_placeholder(ctx: &mut ParsingContext<'_, Self::Item>, ch: char) {
        ctx.vout.push(ch);
        proof {
            lemma_acc_char(old(ctx).vout@);
            lemma_acc_char(ctx.vout@);
        }
    }

    fn process_str_placeholder(ctx: &mut ParsingContext<'_, Self::Item>, arg: String) {
        let repl = match ctx.key_value.get(arg.as_str()) {
            Some(r) => r,
            None => {
                Self::error(ctx);
                return ;
            },
        };
        let repl_chars = chars_of(repl.as_str());
        let value_len = repl_chars.len();
        let ghost kv = kv_model(old(ctx).key_value@);
        let ghost v = kv[arg@];
        let ghost acc0 = old(ctx).vout@;
        proof {
            assert(repl_chars@ == v);
            assert(value_len as int == v.len());
            lemma_acc_char(old(ctx).vout@);
        }
        match ctx.format {
            OutputFormat::Plain => {
                push_char_range(&mut ctx.vout, &repl_chars, 0, value_len);
                proof {
                    assert(repl_chars@.subrange(0, value_len as int) =~= v);
                    lemma_acc_char(ctx.vout@);
                }
            },
            OutputFormat::LeftAlign(la) => {
                push_char_range(&mut ctx.vout, &repl_chars, 0, value_len);
                let width = la as usize;
                if width > value_len {
                    push_spaces(&mut ctx.vout, width - value_len);
                }
                proof {
                    assert(repl_chars@.subrange(0, value_len as int) =~= v);
                    assert(ctx.vout@ =~= acc0 + (v + spaces(la as int - v.len() as int)));
                    lemma_acc_char(ctx.vout@);
                }
            },
            OutputFormat::RightAlign(ra) => {
                let width = ra as usize;
                if width > value_len {
                    push_spaces(&mut ctx.vout, width - value_len);
                }
                push_char_range(&mut ctx.vout, &repl_chars, 0, value_len);
                proof {
                    assert(repl_chars@.subrange(0, value_len as int) =~= v);
                    assert(ctx.vout@ =~= acc0 + (spaces(ra as int - v.len() as int) + v));
                    lemma_acc_char(ctx.vout@);
                }
            },
            OutputFormat::LeftAlignTrunc(la) => {
                let width = la as usize;
                if value_len <= width {
                    push_char_range(&mut ctx.vout, &repl_chars, 0, value_len);
                    push_spaces(&mut ctx.vout, width - value_len);
                    proof {
                        assert(repl_chars@.subrange(0, value_len as int) =~= v);
                        assert(ctx.vout@ =~= acc0 + (v + spaces(la as int - v.len() as int)));
                        lemma_acc_char(ctx.vout@);
                    }
                } else {
                    push_char_range(&mut ctx.vout, &repl_chars, 0, width - 1);
                    ctx.vout.push('…');
                    proof {
                        assert(ctx.vout@ =~= acc0 + (v.subrange(0, la as int - 1) + seq!['…']));
                        lemma_acc_char(ctx.vout@);
                    }
                }
            },
            OutputFormat::RightAlignTrunc(ra) => {
                let width = ra as usize;
                if value_len <= width {
                    push_spaces(&mut ctx.vout, width - value_len);
                    push_char_range(&mut ctx.vout, &repl_chars, 0, value_len);
                    proof {
                        assert(repl_chars@.subrange(0, value_len as int) =~= v);
                        assert(ctx.vout@ =~= acc0 + (spaces(ra as int - v.len() as int) + v));
                        lemma_acc_char(ctx.vout@);
                    }
                } else {
                    push_char_range(&mut ctx.vout, &repl_chars, 0, width - 1);
                    ctx.vout.push('…');
                    proof {
                        assert(ctx.vout@ =~= acc0 + (v.subrange(0, ra as int - 1) + seq!['…']));
                        lemma_acc_char(ctx.vout@);
                    }
                }
            },
            OutputFormat::RightAlignLTrunc(ra) => {
                let width = ra as usize;
                if value_len <= width {
                    push_spaces(&mut ctx.vout, width - value_len);
                    push_char_range(&mut ctx.vout, &repl_chars, 0, value_len);
                    proof {
                        assert(repl_chars@.subrange(0, value_len as int) =~= v);
                        assert(ctx.vout@ =~= acc0 + (spaces(ra as int - v.len() as int) + v));
                        lemma_acc_char(ctx.vout@);
                    }
                } else {
                    ctx.vout.push('…');
                    push_char_range(&mut ctx.vout, &repl_chars, value_len - (width - 1), value_len);
                    proof {
                        assert(ctx.vout@ =~= acc0 + (seq!['…'] + v.subrange(
                            v.len() as int - (ra as int - 1),
                            v.len() as int,
                        )));
                        lemma_acc_char(ctx.vout@);
                    }
                }
            },
        }
    }
}

/// Running the scan's events through the replace interpretation is the
/// replacement fold.
pub proof fn lemma_run_events_replace(
    kv: Map<Seq<char>, Seq<char>>,
    acc: Seq<char>,
    evs: Seq<Event>,
)
    ensures
        run_events::<ParsingTaskReplacePlaceholders>(kv, acc, evs) == replace_events(kv, acc, evs),
    decreases evs.len(),
{
    if evs.len() != 0 {
        lemma_run_events_replace(kv, replace_step(kv, acc, evs[0]), evs.drop_first());
    }
}

} // verus!
