//! A single-pass template engine for `%`-introduced placeholders.
//!
//! The engine scans an input string once and, depending on the requested
//! operation, replaces `%(key)` placeholders with values from a key/value
//! mapping, measures the rendered lengths, or extracts the referenced keys.
//! Escapes (`%%`, `%n`) and one-shot alignment directives
//! (`%<(width)`, `%>(width,trunc)`, ...) are part of the same grammar.
//! All widths and counts are measured in Unicode scalar values.

use vstd::prelude::*;

pub mod laws;
pub mod output_format;
pub mod parsing_context;
pub mod parsing_task;
pub mod parsing_task_extract_placeholder_keys;
pub mod parsing_task_measure_lengths;
pub mod parsing_task_replace_placeholders;
pub mod peek_char_iterator;
pub mod placeholder_formatter;
pub mod semantics;
pub mod text;

pub use crate::placeholder_formatter::PlaceholderFormatter;
pub use vstd::hash_map::StringHashMap;

use crate::output_format::OutputFormat;
use crate::parsing_context::ParsingContext;
use crate::parsing_task::ParsingTask;
use crate::parsing_task::acc_view;
use crate::parsing_task::lemma_run_events_cons;
use crate::parsing_task::run_events;
use crate::parsing_task_extract_placeholder_keys::ParsingTaskExtractPlaceholderKeys;
use crate::parsing_task_extract_placeholder_keys::lemma_run_events_extract;
use crate::parsing_task_measure_lengths::ParsingTaskMeasureLengths;
use crate::parsing_task_measure_lengths::lemma_run_events_measure;
use crate::parsing_task_replace_placeholders::ParsingTaskReplacePlaceholders;
use crate::parsing_task_replace_placeholders::lemma_run_events_replace;
use crate::semantics::as_ints;
use crate::semantics::lemma_measure_capped_matches;
use crate::peek_char_iterator::PeekCharIterator;
use crate::semantics::Event;
use crate::semantics::PhOutcome;
use crate::semantics::digit_run_end;
use crate::semantics::fmt_wf;
use crate::semantics::kv_model;
use crate::semantics::lemma_parse_ph_bounds;
use crate::semantics::lemma_parse_ph_wf;
use crate::semantics::parse_fmt;
use crate::semantics::parse_key;
use crate::semantics::parse_ph;
use crate::semantics::scan;
use crate::semantics::scan_from;
use crate::text::string_from_chars;
use crate::semantics::digits_val;
use crate::semantics::is_key_char;
use crate::semantics::key_run_end;
use crate::semantics::lemma_digit_run_end;
use crate::semantics::lemma_digits_val_bounds;
use crate::semantics::lemma_key_run_end;
use crate::semantics::lemma_space_run_end;
use crate::semantics::ltrunc_keyword;
use crate::semantics::space_run_end;
use crate::semantics::trunc_keyword;

verus! {

/// Consumes the next character when it equals `expected`; otherwise the
/// cursor stays in place.
fn consume_if_eq(iter: &mut PeekCharIterator, expected: char) -> (r: Option<char>)
    requires
        old(iter).wf(),
    ensures
        final(iter).wf(),
        final(iter).chars() == old(iter).chars(),
        final(iter).marked() == old(iter).marked(),
        ({
            let s = old(iter).chars();
            let i = old(iter).current();
            if i < s.len() && s[i] == expected {
                r == Some(expected) && final(iter).current() == i + 1
            } else {
                r is None && final(iter).current() == i
            }
        }),
{
    match iter.peek() {
        Some(ch) => {
            if ch == expected {
                iter.next();
                Some(ch)
            } else {
                None
            }
        },
        None => None,
    }
}

/// Consumes the maximal run of spaces at the cursor.
fn skip_spaces(iter: &mut PeekCharIterator)
    requires
        old(iter).wf(),
    ensures
        final(iter).wf(),
        final(iter).chars() == old(iter).chars(),
        final(iter).marked() == old(iter).marked(),
        final(iter).current() == space_run_end(old(iter).chars(), old(iter).current()),
{
    loop
        invariant
            iter.wf(),
            iter.chars() == old(iter).chars(),
            iter.marked() == old(iter).marked(),
            old(iter).current() <= iter.current(),
            space_run_end(iter.chars(), iter.current()) == space_run_end(
                old(iter).chars(),
                old(iter).current(),
            ),
        ensures
            iter.wf(),
            iter.chars() == old(iter).chars(),
            iter.marked() == old(iter).marked(),
            iter.current() == space_run_end(old(iter).chars(), old(iter).current()),
        decreases iter.chars().len() - iter.current(),
    {
        match iter.peek() {
            Some(ch) => {
                if ch == ' ' {
                    iter.next();
                } else {
                    break ;
                }
            },
            None => {
                break ;
            },
        }
    }
}

/// Consumes the maximal run of key characters at the cursor.  Returns the
/// run, or `None` when the input ends before a non-key character is seen.
fn gather_key_chars(iter: &mut PeekCharIterator) -> (r: Option<Vec<char>>)
    requires
        old(iter).wf(),
    ensures
        final(iter).wf(),
        final(iter).chars() == old(iter).chars(),
        final(iter).marked() == old(iter).marked(),
        ({
            let s = old(iter).chars();
            let i = old(iter).current();
            let j = key_run_end(s, i);
            &&& final(iter).current() == j
            &&& if j >= s.len() {
                r is None
            } else {
                r matches Some(v) && v@ == s.subrange(i, j)
            }
        }),
{
    let ghost i0 = iter.current();
    let mut v: Vec<char> = Vec::new();
    loop
        invariant
            iter.wf(),
            iter.chars() == old(iter).chars(),
            iter.marked() == old(iter).marked(),
            i0 == old(iter).current(),
            0 <= i0 <= iter.current(),
            v@ == iter.chars().subrange(i0, iter.current()),
            key_run_end(iter.chars(), iter.current()) == key_run_end(old(iter).chars(), i0),
        ensures
            iter.wf(),
            iter.chars() == old(iter).chars(),
            iter.marked() == old(iter).marked(),
            iter.current() == key_run_end(old(iter).chars(), i0),
            v@ == iter.chars().subrange(i0, iter.current()),
        decreases iter.chars().len() - iter.current(),
    {
        match iter.peek() {
            Some(ch) => {
                if is_key_char_exec(ch) {
                    v.push(ch);
                    iter.next();
                    proof {
                        assert(v@ =~= iter.chars().subrange(i0, iter.current()));
                    }
                } else {
                    break ;
                }
            },
            None => {
                break ;
            },
        }
    }
    if iter.peek().is_none() {
        None
    } else {
        Some(v)
    }
}

/// Whether the character may stand in a key or directive keyword.
fn is_key_char_exec(c: char) -> (r: bool)
    ensures
        r == is_key_char(c),
{
    ('0' <= c && c <= '9') || ('a' <= c && c <= 'z') || ('A' <= c && c <= 'Z') || c == '_' || c
        == '+' || c == '*' || c == '/' || c == 'ä' || c == 'ö' || c == 'ü' || c == 'ß' || c == '?'
}

/// Whether the gathered keyword is `trunc`.
fn is_trunc_keyword(v: &Vec<char>) -> (r: bool)
    ensures
        r == (v@ == trunc_keyword()),
{
    let r = v.len() == 5 && v[0] == 't' && v[1] == 'r' && v[2] == 'u' && v[3] == 'n' && v[4] == 'c';
    proof {
        if r {
            assert(v@ =~= trunc_keyword());
        }
        if v@ == trunc_keyword() {
            assert(v@.len() == 5);
            assert(v@[0] == 't' && v@[1] == 'r' && v@[2] == 'u' && v@[3] == 'n' && v@[4] == 'c');
        }
    }
    r
}

/// Whether the gathered keyword is `ltrunc`.
fn is_ltrunc_keyword(v: &Vec<char>) -> (r: bool)
    ensures
        r == (v@ == ltrunc_keyword()),
{
    let r = v.len() == 6 && v[0] == 'l' && v[1] == 't' && v[2] == 'r' && v[3] == 'u' && v[4] == 'n'
        && v[5] == 'c';
    proof {
        if r {
            assert(v@ =~= ltrunc_keyword());
        }
        if v@ == ltrunc_keyword() {
            assert(v@.len() == 6);
            assert(v@[0] == 'l' && v@[1] == 't' && v@[2] == 'r' && v@[3] == 'u' && v@[4] == 'n'
                && v@[5] == 'c');
        }
    }
    r
}

/// Main entry point for the template operations.
pub struct Formatify;

impl Formatify {
    /// Creates a fresh engine; the engine itself carries no state.
    pub fn new() -> Self {
        Self
    }

    /// Parses a decimal width at the cursor: the first digit must be `1`-`9`,
    /// further digits extend the maximal run.  Returns `None`, consuming
    /// nothing, when no such digit stands at the cursor, and `None` with the
    /// run consumed when the value does not fit in 32 bits.
    fn parse_decimal_number<I>(&self, context: &mut ParsingContext<'_, I>) -> (r: Option<u32>)
        requires
            old(context).wf(),
        ensures
            final(context).wf(),
            final(context).iter.chars() == old(context).iter.chars(),
            final(context).iter.marked() == old(context).iter.marked(),
            final(context).vout == old(context).vout,
            final(context).format == old(context).format,
            final(context).key_value == old(context).key_value,
            ({
                let s = old(context).iter.chars();
                let i = old(context).iter.current();
                if i < s.len() && '1' <= s[i] && s[i] <= '9' {
                    let j = digit_run_end(s, i);
                    &&& final(context).iter.current() == j
                    &&& if digits_val(s, i, j) <= u32::MAX as int {
                        r == Some(digits_val(s, i, j) as u32)
                    } else {
                        r is None
                    }
                } else {
                    final(context).iter.current() == i && r is None
                }
            }),
    {
        let ghost s = context.iter.chars();
        let ghost i0 = context.iter.current();
        proof {
            lemma_digit_run_end(s, i0);
        }
        let c0 = match context.iter.peek() {
            Some(c) => c,
            None => {
                return None;
            },
        };
        if !('1' <= c0 && c0 <= '9') {
            return None;
        }
        context.iter.next();
        let mut val: u64 = (c0 as u32 - '0' as u32) as u64;
        let mut overflow: bool = false;
        proof {
            assert(digits_val(s, i0, i0 + 1) == digits_val(s, i0, i0) * 10 + (s[i0] as int
                - '0' as int));
        }
        loop
            invariant
                context.wf(),
                context.iter.chars() == s,
                context.iter.marked() == old(context).iter.marked(),
                context.vout == old(context).vout,
                context.format == old(context).format,
                context.key_value == old(context).key_value,
                i0 < s.len() && '1' <= s[i0] && s[i0] <= '9',
                i0 < context.iter.current() <= digit_run_end(s, i0),
                !overflow ==> val == digits_val(s, i0, context.iter.current()) && val
                    <= u32::MAX as u64,
                overflow ==> digits_val(s, i0, context.iter.current()) > u32::MAX as int,
            ensures
                context.wf(),
                context.iter.chars() == s,
                context.iter.marked() == old(context).iter.marked(),
                context.vout == old(context).vout,
                context.format == old(context).format,
                context.key_value == old(context).key_value,
                context.iter.current() == digit_run_end(s, i0),
                !overflow ==> val == digits_val(s, i0, digit_run_end(s, i0)) && val
                    <= u32::MAX as u64,
                overflow ==> digits_val(s, i0, digit_run_end(s, i0)) > u32::MAX as int,
            decreases s.len() - context.iter.current(),
        {
            proof {
                lemma_digit_run_end(s, i0);
            }
            let d = match context.iter.peek() {
                Some(c) => {
                    if '0' <= c && c <= '9' {
                        c
                    } else {
                        break ;
                    }
                },
                None => {
                    break ;
                },
            };
            let ghost cur = context.iter.current();
            context.iter.next();
            proof {
                assert(digits_val(s, i0, cur + 1) == digits_val(s, i0, cur) * 10 + (s[cur] as int
                    - '0' as int));
                lemma_digits_val_bounds(s, i0, cur);
            }
            if !overflow {
                val = val * 10 + (d as u32 - '0' as u32) as u64;
                if val > u32::MAX as u64 {
                    overflow = true;
                }
            } else {
                proof {
                    assert(digits_val(s, i0, cur + 1) > u32::MAX as int);
                }
            }
        }
        if overflow {
            None
        } else {
            proof {
                lemma_digits_val_bounds(s, i0, digit_run_end(s, i0));
            }
            Some(val as u32)
        }
    }

    /// Handles a key placeholder after `%(` has been consumed: gathers the
    /// key, expects the closing `)`, and hands the key to the interpretation.
    /// Anything else replays the attempt through the interpretation's
    /// recovery hook.
    fn process_str_placeholder<T: ParsingTask>(&self, context: &mut ParsingContext<'_, T::Item>)
        requires
            old(context).wf(),
            fmt_wf(old(context).format),
            old(context).iter.marked() is Some,
            ({
                let s = old(context).iter.chars();
                let m = old(context).iter.marked()->0;
                &&& 0 <= m
                &&& m + 2 == old(context).iter.current()
                &&& s[m] == '%'
                &&& s[m + 1] == '('
            }),
        ensures
            final(context).wf(),
            final(context).iter.chars() == old(context).iter.chars(),
            final(context).iter.marked() == old(context).iter.marked(),
            final(context).key_value == old(context).key_value,
            ({
                let s = old(context).iter.chars();
                let m = old(context).iter.marked()->0;
                let kv = kv_model(old(context).key_value@);
                let p = parse_key(s, m);
                let raw = s.subrange(m, m + p.consumed);
                &&& final(context).iter.current() == m + p.consumed
                &&& match p.outcome {
                    PhOutcome::PhKey(k) => {
                        &&& acc_view(final(context).vout@) == T::spec_step(
                            kv,
                            acc_view(old(context).vout@),
                            Event::KeyUse { key: k, raw, fmt: old(context).format },
                        )
                        &&& final(context).format == OutputFormat::Plain
                    },
                    PhOutcome::PhErr => {
                        &&& acc_view(final(context).vout@) == T::spec_step(
                            kv,
                            acc_view(old(context).vout@),
                            Event::Recovered(raw),
                        )
                        &&& final(context).format == old(context).format
                    },
                    _ => false,
                }
            }),
    {
        let ghost s = context.iter.chars();
        let ghost m = context.iter.marked()->0;
        proof {
            lemma_key_run_end(s, m + 2);
        }
        let opt_literal = gather_key_chars(&mut context.iter);
        match opt_literal {
            None => {
                T::error(context);
            },
            Some(literal) => {
                if consume_if_eq(&mut context.iter, ')').is_some() {
                    let arg = string_from_chars(literal);
                    T::process_str_placeholder(context, arg);
                    context.format = OutputFormat::Plain;
                } else {
                    T::error(context);
                }
            },
        }
    }

    /// Handles a format directive after `%<` or `%>` has been consumed:
    /// `(`, optional spaces, a width, optional spaces, then either `)` or a
    /// `,`-separated truncation keyword.  On success the pending directive
    /// changes and nothing is emitted; on failure the attempt is replayed.
    fn process_format_placeholder<T: ParsingTask>(
        &self,
        context: &mut ParsingContext<'_, T::Item>,
        right: bool,
    )
        requires
            old(context).wf(),
            old(context).iter.marked() is Some,
            ({
                let s = old(context).iter.chars();
                let m = old(context).iter.marked()->0;
                &&& 0 <= m
                &&& m + 2 == old(context).iter.current()
                &&& s[m] == '%'
                &&& s[m + 1] == (if right {
                    '>'
                } else {
                    '<'
                })
            }),
        ensures
            final(context).wf(),
            final(context).iter.chars() == old(context).iter.chars(),
            final(context).iter.marked() == old(context).iter.marked(),
            final(context).key_value == old(context).key_value,
            ({
                let s = old(context).iter.chars();
                let m = old(context).iter.marked()->0;
                let kv = kv_model(old(context).key_value@);
                let p = parse_fmt(s, m, right);
                let raw = s.subrange(m, m + p.consumed);
                &&& final(context).iter.current() == m + p.consumed
                &&& match p.outcome {
                    PhOutcome::PhFmt(f) => {
                        &&& final(context).format == f
                        &&& final(context).vout == old(context).vout
                    },
                    PhOutcome::PhErr => {
                        &&& acc_view(final(context).vout@) == T::spec_step(
                            kv,
                            acc_view(old(context).vout@),
                            Event::Recovered(raw),
                        )
                        &&& final(context).format == old(context).format
                    },
                    _ => false,
                }
            }),
    {
        let ghost s = context.iter.chars();
        let ghost m = context.iter.marked()->0;
        if consume_if_eq(&mut context.iter, '(').is_none() {
            T::error(context);
            return ;
        }
        proof {
            lemma_space_run_end(s, m + 3);
        }
        skip_spaces(&mut context.iter);
        let ghost p0 = space_run_end(s, m + 3);
        proof {
            lemma_digit_run_end(s, p0);
        }
        let decimal_opt = self.parse_decimal_number(context);
        let decimal = match decimal_opt {
            Some(d) => d,
            None => {
                T::error(context);
                return ;
            },
        };
        let ghost p1 = digit_run_end(s, p0);
        proof {
            lemma_space_run_end(s, p1);
        }
        skip_spaces(&mut context.iter);
        let ghost p2 = space_run_end(s, p1);
        if consume_if_eq(&mut context.iter, ',').is_some() {
            proof {
                lemma_space_run_end(s, p2 + 1);
            }
            skip_spaces(&mut context.iter);
            let ghost p3 = space_run_end(s, p2 + 1);
            proof {
                lemma_key_run_end(s, p3);
            }
            let literal = match gather_key_chars(&mut context.iter) {
                Some(l) => l,
                None => {
                    T::error(context);
                    return ;
                },
            };
            let ghost p4 = key_run_end(s, p3);
            proof {
                lemma_space_run_end(s, p4);
            }
            skip_spaces(&mut context.iter);
            context.iter.next();
            if !right && is_trunc_keyword(&literal) {
                context.format = OutputFormat::LeftAlignTrunc(decimal);
            } else if right && is_trunc_keyword(&literal) {
                context.format = OutputFormat::RightAlignTrunc(decimal);
            } else if right && is_ltrunc_keyword(&literal) {
                context.format = OutputFormat::RightAlignLTrunc(decimal);
            } else {
                T::error(context);
            }
        } else {
            if consume_if_eq(&mut context.iter, ')').is_none() {
                T::error(context);
                return ;
            }
            context.format = if right {
                OutputFormat::RightAlign(decimal)
            } else {
                OutputFormat::LeftAlign(decimal)
            };
        }
    }

    /// The `%<(...)` form of the format directive.
    fn process_format_left_placeholder<T: ParsingTask>(
        &self,
        context: &mut ParsingContext<'_, T::Item>,
    )
        requires
            old(context).wf(),
            old(context).iter.marked() is Some,
            ({
                let s = old(context).iter.chars();
                let m = old(context).iter.marked()->0;
                &&& 0 <= m
                &&& m + 2 == old(context).iter.current()
                &&& s[m] == '%'
                &&& s[m + 1] == '<'
            }),
        ensures
            final(context).wf(),
            final(context).iter.chars() == old(context).iter.chars(),
            final(context).iter.marked() == old(context).iter.marked(),
            final(context).key_value == old(context).key_value,
            ({
                let s = old(context).iter.chars();
                let m = old(context).iter.marked()->0;
                let kv = kv_model(old(context).key_value@);
                let p = parse_fmt(s, m, false);
                let raw = s.subrange(m, m + p.consumed);
                &&& final(context).iter.current() == m + p.consumed
                &&& match p.outcome {
                    PhOutcome::PhFmt(f) => {
                        &&& final(context).format == f
                        &&& final(context).vout == old(context).vout
                    },
                    PhOutcome::PhErr => {
                        &&& acc_view(final(context).vout@) == T::spec_step(
                            kv,
                            acc_view(old(context).vout@),
                            Event::Recovered(raw),
                        )
                        &&& final(context).format == old(context).format
                    },
                    _ => false,
                }
            }),
    {
        self.process_format_placeholder::<T>(context, false)
    }

    /// The `%>(...)` form of the format directive.
    fn process_format_right_placeholder<T: ParsingTask>(
        &self,
        context: &mut ParsingContext<'_, T::Item>,
    )
        requires
            old(context).wf(),
            old(context).iter.marked() is Some,
            ({
                let s = old(context).iter.chars();
                let m = old(context).iter.marked()->0;
                &&& 0 <= m
                &&& m + 2 == old(context).iter.current()
                &&& s[m] == '%'
                &&& s[m + 1] == '>'
            }),
        ensures
            final(context).wf(),
            final(context).iter.chars() == old(context).iter.chars(),
            final(context).iter.marked() == old(context).iter.marked(),
            final(context).key_value == old(context).key_value,
            ({
                let s = old(context).iter.chars();
                let m = old(context).iter.marked()->0;
                let kv = kv_model(old(context).key_value@);
                let p = parse_fmt(s, m, true);
                let raw = s.subrange(m, m + p.consumed);
                &&& final(context).iter.current() == m + p.consumed
                &&& match p.outcome {
                    PhOutcome::PhFmt(f) => {
                        &&& final(context).format == f
                        &&& final(context).vout == old(context).vout
                    },
                    PhOutcome::PhErr => {
                        &&& acc_view(final(context).vout@) == T::spec_step(
                            kv,
                            acc_view(old(context).vout@),
                            Event::Recovered(raw),
                        )
                        &&& final(context).format == old(context).format
                    },
                    _ => false,
                }
            }),
    {
        self.process_format_placeholder::<T>(context, true)
    }

    /// Dispatches on the character after a consumed `%`.
    fn process_placeholder<T: ParsingTask>(&self, context: &mut ParsingContext<'_, T::Item>)
        requires
            old(context).wf(),
            fmt_wf(old(context).format),
            old(context).iter.marked() is Some,
            ({
                let s = old(context).iter.chars();
                let m = old(context).iter.marked()->0;
                &&& 0 <= m < s.len()
                &&& m + 1 == old(context).iter.current()
                &&& s[m] == '%'
            }),
        ensures
            final(context).wf(),
            final(context).iter.chars() == old(context).iter.chars(),
            final(context).iter.marked() == old(context).iter.marked(),
            final(context).key_value == old(context).key_value,
            ({
                let s = old(context).iter.chars();
                let m = old(context).iter.marked()->0;
                let kv = kv_model(old(context).key_value@);
                let p = parse_ph(s, m);
                let raw = s.subrange(m, m + p.consumed);
                &&& final(context).iter.current() == m + p.consumed
                &&& match p.outcome {
                    PhOutcome::PhChar(c) => {
                        &&& acc_view(final(context).vout@) == T::spec_step(
                            kv,
                            acc_view(old(context).vout@),
                            Event::Literal(c),
                        )
                        &&& final(context).format == old(context).format
                    },
                    PhOutcome::PhKey(k) => {
                        &&& acc_view(final(context).vout@) == T::spec_step(
                            kv,
                            acc_view(old(context).vout@),
                            Event::KeyUse { key: k, raw, fmt: old(context).format },
                        )
                        &&& final(context).format == OutputFormat::Plain
                    },
                    PhOutcome::PhFmt(f) => {
                        &&& final(context).vout == old(context).vout
                        &&& final(context).format == f
                    },
                    PhOutcome::PhErr => {
                        &&& acc_view(final(context).vout@) == T::spec_step(
                            kv,
                            acc_view(old(context).vout@),
                            Event::Recovered(raw),
                        )
                        &&& final(context).format == old(context).format
                    },
                }
            }),
    {
        let ch = match context.iter.next() {
            Some(c) => c,
            None => {
                T::error(context);
                return ;
            },
        };
        match ch {
            '(' => {
                self.process_str_placeholder::<T>(context);
            },
            '<' => {
                self.process_format_left_placeholder::<T>(context);
            },
            '>' => {
                self.process_format_right_placeholder::<T>(context);
            },
            'n' => {
                T::process_char_placeholder(context, '\n');
            },
            '%' => {
                T::process_char_placeholder(context, '%');
            },
            _ => {
                T::error(context);
            },
        }
    }

    /// One forward scan of `inp` under the interpretation `T`: the returned
    /// output is the interpretation's fold over the scan's events.
    fn parse_generic<T: ParsingTask>(&self, key_value: &StringHashMap<String>, inp: &str) -> (out:
        T::Output)
        ensures
            out.deep_view() == T::spec_done(
                run_events::<T>(kv_model(key_value@), T::spec_init(), scan(inp@)),
            ),
    {
        let mut context = T::init(inp, key_value);
        let ghost s = inp@;
        let ghost kv = kv_model(key_value@);
        let ghost total = run_events::<T>(kv, T::spec_init(), scan(s));
        loop
            invariant
                context.wf(),
                context.iter.chars() == s,
                context.key_value == key_value,
                kv == kv_model(key_value@),
                total == run_events::<T>(kv, T::spec_init(), scan(s)),
                fmt_wf(context.format),
                run_events::<T>(
                    kv,
                    acc_view(context.vout@),
                    scan_from(s, context.iter.current(), context.format),
                ) == total,
            ensures
                context.wf(),
                context.key_value == key_value,
                acc_view(context.vout@) == total,
            decreases s.len() - context.iter.current(),
        {
            let ch = match context.iter.peek() {
                Some(c) => c,
                None => {
                    proof {
                        assert(scan_from(s, context.iter.current(), context.format)
                            =~= Seq::<Event>::empty());
                    }
                    break ;
                },
            };
            let ghost i = context.iter.current();
            let ghost fmt0 = context.format;
            let ghost acc0 = acc_view(context.vout@);
            if ch == '%' {
                context.iter.mark();
                context.iter.next();
                proof {
                    lemma_parse_ph_bounds(s, i);
                    lemma_parse_ph_wf(s, i);
                }
                self.process_placeholder::<T>(&mut context);
                proof {
                    crate::semantics::lemma_scan_from_placeholder(s, i, fmt0);
                    let p = parse_ph(s, i);
                    let n = p.consumed;
                    let raw = s.subrange(i, i + n);
                    match p.outcome {
                        PhOutcome::PhChar(c) => {
                            lemma_run_events_cons::<T>(
                                kv,
                                acc0,
                                Event::Literal(c),
                                scan_from(s, i + n, fmt0),
                            );
                        },
                        PhOutcome::PhKey(k) => {
                            lemma_run_events_cons::<T>(
                                kv,
                                acc0,
                                Event::KeyUse { key: k, raw, fmt: fmt0 },
                                scan_from(s, i + n, OutputFormat::Plain),
                            );
                        },
                        PhOutcome::PhFmt(f) => {
                        },
                        PhOutcome::PhErr => {
                            lemma_run_events_cons::<T>(
                                kv,
                                acc0,
                                Event::Recovered(raw),
                                scan_from(s, i + n, fmt0),
                            );
                        },
                    }
                }
            } else {
                context.iter.next();
                T::process_char(&mut context, ch);
                proof {
                    crate::semantics::lemma_scan_from_literal(s, i, fmt0);
                    lemma_run_events_cons::<T>(
                        kv,
                        acc0,
                        Event::Literal(ch),
                        scan_from(s, i + 1, fmt0),
                    );
                }
            }
        }
        T::done(context)
    }
}

impl PlaceholderFormatter for Formatify {
    fn replace_placeholders(&self, key_value: &StringHashMap<String>, inp: &str) -> (out:
        String) {
        let out = self.parse_generic::<ParsingTaskReplacePlaceholders>(key_value, inp);
        proof {
            lemma_run_events_replace(kv_model(key_value@), Seq::empty(), scan(inp@));
        }
        out
    }

    fn measure_lengths(&self, key_value: &StringHashMap<String>, inp: &str) -> (out: Vec<
        usize,
    >) {
        let out = self.parse_generic::<ParsingTaskMeasureLengths>(key_value, inp);
        proof {
            let kv = kv_model(key_value@);
            lemma_run_events_measure(kv, seq![0usize], scan(inp@));
            assert(as_ints(seq![0usize]) =~= seq![0int]);
            lemma_measure_capped_matches(kv, seq![0usize], scan(inp@));
            assert(as_ints(out@) =~= as_ints(out.deep_view()));
        }
        out
    }

    fn extract_placeholder_keys(&self, inp: &str) -> (out: Vec<String>) {
        let key_value = StringHashMap::<String>::new();
        let out = self.parse_generic::<ParsingTaskExtractPlaceholderKeys>(&key_value, inp);
        proof {
            lemma_run_events_extract(kv_model(key_value@), Seq::empty(), scan(inp@));
        }
        out
    }
}

impl Default for Formatify {
    fn default() -> (r: Self)
        ensures
            r == (Formatify {}),
    {
        Self::new()
    }
}

} // verus!
