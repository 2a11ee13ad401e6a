//! Laws that tie several functions together, stated over the spec
//! functions their contracts use and proved once for all inputs.

use vstd::prelude::*;

use crate::error::ShellError;
use crate::expansion::Expansion;
use crate::line::{line_obeys_new, Line, LineView};
use crate::selection::{spec_selector_split, Selection};
use crate::sources::{for_step, spec_let_line, For};
use crate::strutil::is_space;
use crate::token::{
    spec_selected, spec_separated, spec_token_new, ws_fold, ws_split, Quote, TokenModel,
};

verus! {

/// Whitespace-free text is one single field.
pub proof fn lemma_ws_fold_solid(s: Seq<char>)
    requires
        forall|i: int| 0 <= i < s.len() ==> !is_space(s[i]),
    ensures
        ws_fold(s) == (Seq::<Seq<char>>::empty(), s),
    decreases s.len(),
{
    if s.len() == 0 {
        assert(ws_fold(s).1 =~= s);
    } else {
        lemma_ws_fold_solid(s.drop_last());
        assert(s.drop_last().push(s.last()) =~= s);
    }
}

/// Plain text passes through the whole token pipeline unchanged: for
/// text with no whitespace, no quote characters, no braces and no
/// trailing selector, the token built from it is unquoted and inert,
/// and separating then selecting yields exactly that text as the one
/// selected field.  (Text ending in a well-formed `[...]` selector is
/// left out: its selector is stripped by construction.)
pub proof fn lemma_plain_token_selects_itself(s: Seq<char>)
    requires
        s.len() > 0,
        forall|i: int|
            0 <= i < s.len() ==> !is_space(s[i]) && s[i] != '\'' && s[i] != '"' && s[i] != '{'
                && s[i] != '}',
        spec_selector_split(s) is None,
    ensures
        spec_token_new(s) == Result::<TokenModel, crate::error::ShellError>::Ok(
            TokenModel {
                text: s,
                quote: Quote::Unquoted,
                expansion: Expansion::Plain,
                selection: Selection::All,
            },
        ),
        spec_selected(spec_separated(s, Quote::Unquoted), Selection::All) == seq![s],
{
    assert(s[0] != '\'' && s[0] != '"');
    assert(s.last() != '}');
    lemma_ws_fold_solid(s);
    assert(ws_split(s) =~= seq![s]);
}


/// One thing a `for` loop source emits: a synthetic binding of the
/// next value, or a replay of one stored body line.
pub ghost enum ForOutput {
    Bind(Seq<char>),
    Replay(LineView),
}

/// One whole body replay, line by line.
pub open spec fn replay_body(body: Seq<LineView>) -> Seq<ForOutput>
    decreases body.len(),
{
    if body.len() == 0 {
        Seq::empty()
    } else {
        seq![ForOutput::Replay(body[0])] + replay_body(body.drop_first())
    }
}

/// Everything a `for` loop over `values` with a non-empty stored body
/// emits: for each value in order, its binding and then the whole
/// body.
pub open spec fn full_emission(values: Seq<Seq<char>>, body: Seq<LineView>) -> Seq<ForOutput>
    decreases values.len(),
{
    if values.len() == 0 {
        Seq::empty()
    } else {
        seq![ForOutput::Bind(values[0])] + replay_body(body) + full_emission(
            values.drop_first(),
            body,
        )
    }
}

/// What a `for` source in any state will still emit.  (With an empty
/// body the loop dies after its first binding: only that much is left.)
pub open spec fn for_trace(f: For) -> Seq<ForOutput> {
    let values = f.iterator_values.deep_view();
    let body = f.body.deep_view();
    let rest = if f.iter_idx < values.len() {
        full_emission(values.skip(f.iter_idx as int), body)
    } else {
        Seq::<ForOutput>::empty()
    };
    if body.len() == 0 {
        if f.line_num == 0 && f.iter_idx < values.len() {
            seq![ForOutput::Bind(values[f.iter_idx as int])]
        } else {
            Seq::empty()
        }
    } else if f.line_num == 0 {
        rest
    } else if f.line_num <= body.len() {
        replay_body(body.skip(f.line_num - 1)) + rest
    } else {
        Seq::empty()
    }
}

/// A fresh `for` loop with a non-empty body emits exactly the full
/// emission: each value bound in order, each binding followed by one
/// whole body replay — so the body runs once per value, and nothing
/// is left afterwards.
pub proof fn lemma_fresh_for_loop_emission(f: For)
    requires
        f.line_num == 0,
        f.iter_idx == 0,
        f.body@.len() > 0,
    ensures
        for_trace(f) == full_emission(f.iterator_values.deep_view(), f.body.deep_view()),
{
    if f.iterator_values@.len() > 0 {
        assert(f.iterator_values.deep_view().skip(0int) =~= f.iterator_values.deep_view());
    } else {
        assert(f.iterator_values.deep_view().len() == 0);
    }
}

/// Every `get_line` step of a `for` source follows its trace: EOF
/// comes exactly when the trace is spent, a produced line is the
/// trace's head — a parsed synthetic `let` for a binding, a copy of
/// the stored line for a replay — and the successor state owns the
/// trace's tail.
pub proof fn lemma_for_step_follows_trace(pre: For, post: For, r: Result<
    Option<Line>,
    ShellError,
>)
    requires
        for_step(pre, post, r),
        r is Ok,
    ensures
        match r->Ok_0 {
            Option::None => for_trace(pre).len() == 0 && for_trace(post).len() == 0,
            Option::Some(l) => for_trace(pre).len() > 0 && for_trace(post) == for_trace(
                pre,
            ).drop_first() && (match for_trace(pre)[0] {
                ForOutput::Bind(v) => v == pre.iterator_values.deep_view()[
                    pre.iter_idx as int
                ] && line_obeys_new(
                    l,
                    spec_let_line(pre.iterator_key@, v),
                    pre.for_line_identifier.line_num,
                    pre.for_line_identifier.source_kind@,
                ),
                ForOutput::Replay(lv) => l@ == lv,
            }),
        },
{
    let values = pre.iterator_values.deep_view();
    let body = pre.body.deep_view();
    if pre.line_num == 0 {
        if pre.iter_idx >= values.len() {
            // EOF: nothing in the trace.
        } else {
            let idx = pre.iter_idx as int;
            assert(values.skip(idx).len() > 0);
            assert(values.skip(idx)[0] == values[idx]);
            assert(values.skip(idx).drop_first() =~= values.skip(idx + 1));
            assert(pre.iterator_values@[idx]@ == values[idx]);
            if body.len() == 0 {
                assert(for_trace(pre) == seq![ForOutput::Bind(values[idx])]);
                assert(for_trace(pre).drop_first() =~= Seq::<ForOutput>::empty());
                assert(for_trace(post).len() == 0);
                assert(for_trace(post) =~= for_trace(pre).drop_first());
            } else {
                assert(for_trace(pre) == full_emission(values.skip(idx), body));
                assert(full_emission(values.skip(idx), body) == seq![
                    ForOutput::Bind(values[idx]),
                ] + replay_body(body) + full_emission(values.skip(idx + 1), body));
                assert(body.skip(0int) =~= body);
                if post.iter_idx < values.len() {
                    assert(for_trace(post) == replay_body(body.skip(0int)) + full_emission(
                        values.skip(idx + 1),
                        body,
                    ));
                } else {
                    assert(values.skip(idx + 1).len() == 0);
                    assert(full_emission(values.skip(idx + 1), body) =~= Seq::<
                        ForOutput,
                    >::empty());
                    assert(for_trace(post) =~= replay_body(body.skip(0int)) + full_emission(
                        values.skip(idx + 1),
                        body,
                    ));
                }
                assert(for_trace(pre).drop_first() =~= replay_body(body) + full_emission(
                    values.skip(idx + 1),
                    body,
                ));
            }
        }
    } else {
        if body.len() == 0 || pre.line_num > body.len() {
            // EOF: the trace is already empty.
        } else {
            let k = pre.line_num as int;
            assert(body.skip(k - 1).len() > 0);
            assert(body.skip(k - 1)[0] == body[k - 1]);
            assert(body.skip(k - 1).drop_first() =~= body.skip(k));
            assert(replay_body(body.skip(k - 1)) == seq![ForOutput::Replay(body[k - 1])]
                + replay_body(body.skip(k)));
            assert(pre.body@[k - 1]@ == body[k - 1]);
            let rest = if pre.iter_idx < values.len() {
                full_emission(values.skip(pre.iter_idx as int), body)
            } else {
                Seq::<ForOutput>::empty()
            };
            assert(for_trace(pre) == replay_body(body.skip(k - 1)) + rest);
            assert(for_trace(pre)[0] == ForOutput::Replay(body[k - 1]));
            if pre.line_num == pre.body@.len() {
                assert(post.line_num == 0);
                assert(replay_body(body.skip(k)) =~= Seq::<ForOutput>::empty());
                assert(for_trace(post) == rest);
                assert(for_trace(pre).drop_first() =~= replay_body(body.skip(k)) + rest);
                assert(for_trace(pre).drop_first() =~= rest);
            } else {
                assert(post.line_num == k + 1);
                assert(for_trace(post) == replay_body(body.skip(k)) + rest);
                assert(for_trace(pre).drop_first() =~= replay_body(body.skip(k)) + rest);
            }
        }
    }
}

} // verus!
