//! The construct interpreters: `if`/`elif`/`else`, `while`, `for`,
//! `let` and `fn`.  Each pulls its header's conditional and its block
//! from the source stack.  Conditional evaluation needs a forked
//! subshell, which only the front end can make: `if` and `while` come
//! back as a collected chain or clause, and `resolve_if` /
//! `resolve_while` apply the verdicts.

use vstd::prelude::*;

use crate::error::ShellError;
use crate::line::{duplicate_lines, spec_argv, spec_conditional, Construct, Line, LineID, LineType};
use crate::shell::Shell;
use crate::sources::{block_available, match_prefix, For, Source, UserFunction};
use crate::strutil::str_eq;

verus! {

/// A collected `if`/`elif`/`else` chain: the conditionals in source
/// order, their bodies, and the `else` body if present.
pub struct IfChain {
    pub conditionals: Vec<String>,
    pub bodies: Vec<Vec<Line>>,
    pub else_body: Option<Vec<Line>>,
}

/// A collected `while` clause: the conditional, the body, and the
/// header line for requeueing.
pub struct WhileClause {
    pub conditional: String,
    pub body: Vec<Line>,
    pub header: Line,
}

/// The keyword `in`.
pub open spec fn kw_in() -> Seq<char> {
    seq!['i', 'n']
}

/// The character `=` alone.
pub open spec fn kw_equals() -> Seq<char> {
    seq!['=']
}

/// `indent + 1`, pinned at the machine's limit: a body line one level
/// deeper than a header of maximal indentation cannot exist anyway.
pub open spec fn spec_indent_below(indent: usize) -> usize {
    if indent < usize::MAX {
        (indent + 1) as usize
    } else {
        indent
    }
}

/// The indentation a construct's body must have.
fn indent_below(indent: usize) -> (r: usize)
    ensures
        r == spec_indent_below(indent),
{
    if indent < usize::MAX {
        indent + 1
    } else {
        indent
    }
}

/// What an `if` chain's continuation spells out, read from a line
/// sequence: each leading `elif` header contributes its conditional
/// and the block after it, one trailing `else` contributes its block,
/// and the first other line (or the end) stops it.  `consumed` counts
/// the lines the chain covers.
pub ghost struct IfChainShape {
    pub conditionals: Seq<Seq<char>>,
    pub bodies: Seq<Seq<Line>>,
    pub else_body: Option<Seq<Line>>,
    pub consumed: int,
}

/// The matching prefix, clipped to the sequence (they coincide; the
/// clip keeps recursion measures simple).
pub open spec fn clipped_prefix(buf: Seq<Line>, kindv: crate::sources::SourceKindV, ind: usize) -> int {
    if match_prefix(buf, kindv, ind) <= buf.len() {
        match_prefix(buf, kindv, ind) as int
    } else {
        buf.len() as int
    }
}

/// The chain continuation a line sequence spells out.
pub open spec fn spec_if_chain(buf: Seq<Line>) -> IfChainShape
    decreases buf.len(),
{
    if buf.len() == 0 {
        IfChainShape {
            conditionals: Seq::empty(),
            bodies: Seq::empty(),
            else_body: Option::None,
            consumed: 0,
        }
    } else if buf[0].line_type == LineType::ShellConstruct(Construct::Elif) {
        let rest = buf.drop_first();
        let mp = clipped_prefix(
            rest,
            buf[0].line_id.source_kind@,
            spec_indent_below(buf[0].indentation),
        );
        let tail = spec_if_chain(rest.skip(mp));
        IfChainShape {
            conditionals: seq![spec_conditional(buf[0].raw_text@)->Some_0] + tail.conditionals,
            bodies: seq![rest.take(mp)] + tail.bodies,
            else_body: tail.else_body,
            consumed: 1 + mp + tail.consumed,
        }
    } else if buf[0].line_type == LineType::ShellConstruct(Construct::Else) {
        let rest = buf.drop_first();
        let mp = clipped_prefix(
            rest,
            buf[0].line_id.source_kind@,
            spec_indent_below(buf[0].indentation),
        );
        IfChainShape {
            conditionals: Seq::empty(),
            bodies: Seq::empty(),
            else_body: Option::Some(rest.take(mp)),
            consumed: 1 + mp,
        }
    } else {
        IfChainShape {
            conditionals: Seq::empty(),
            bodies: Seq::empty(),
            else_body: Option::None,
            consumed: 0,
        }
    }
}

/// The chain continuation needs no new outside input: every `elif` has
/// a conditional, every block ends inside the sequence (or the stack is
/// empty, so collection ends at EOF), and so on down the chain.
pub open spec fn chain_ready(buf: Seq<Line>, stack_empty: bool) -> bool
    decreases buf.len(),
{
    if buf.len() == 0 {
        stack_empty
    } else if buf[0].line_type == LineType::ShellConstruct(Construct::Elif) {
        let rest = buf.drop_first();
        let mp = clipped_prefix(
            rest,
            buf[0].line_id.source_kind@,
            spec_indent_below(buf[0].indentation),
        );
        &&& spec_conditional(buf[0].raw_text@) is Some
        &&& (mp < rest.len() || stack_empty)
        &&& chain_ready(rest.skip(mp), stack_empty)
    } else if buf[0].line_type == LineType::ShellConstruct(Construct::Else) {
        let rest = buf.drop_first();
        let mp = clipped_prefix(
            rest,
            buf[0].line_id.source_kind@,
            spec_indent_below(buf[0].indentation),
        );
        mp < rest.len() || stack_empty
    } else {
        true
    }
}

/// The views of a vector of blocks.
pub open spec fn bodies_views(bs: Seq<Vec<Line>>) -> Seq<Seq<Line>> {
    Seq::new(bs.len(), |i: int| bs[i]@)
}

/// An `if` header whose whole chain needs no new outside input.
pub open spec fn if_ready(pre: Shell, line: Line) -> bool {
    let kindv = line.line_id.source_kind@;
    let ind = spec_indent_below(line.indentation);
    let mp = clipped_prefix(pre.sources.buffer@, kindv, ind);
    &&& line.line_type == LineType::ShellConstruct(Construct::If)
    &&& spec_conditional(line.raw_text@) is Some
    &&& block_available(pre.sources, kindv, ind)
    &&& chain_ready(pre.sources.buffer@.skip(mp), pre.sources.sources@.len() == 0)
}

/// How collecting an `if` chain leaves the shell: a stray `elif` or
/// `else` is the named error with `rv` one and nothing consumed; every
/// collected chain pairs each conditional with its body, starting with
/// the header's own; and for a header whose whole chain is reachable,
/// success is owed, the chain is exactly what the buffer spells out —
/// conditional by conditional, body by body, else body included — and
/// precisely those lines have left the buffer.
pub open spec fn if_collect_post(
    pre: Shell,
    post: Shell,
    line: Line,
    r: Result<IfChain, ShellError>,
) -> bool {
    let kindv = line.line_id.source_kind@;
    let ind = spec_indent_below(line.indentation);
    let mp = match_prefix(pre.sources.buffer@, kindv, ind);
    &&& post.builtins == pre.builtins
    &&& post.user_variables == pre.user_variables
    &&& post.env_variables == pre.env_variables
    &&& post.user_functions == pre.user_functions
    &&& post.state.interactive == pre.state.interactive
    &&& (line.line_type == LineType::ShellConstruct(Construct::Elif) ==> r == Result::<
        IfChain,
        ShellError,
    >::Err(ShellError::ElifWithoutIf) && post.state.rv == 1 && post.sources == pre.sources)
    &&& (line.line_type == LineType::ShellConstruct(Construct::Else) ==> r == Result::<
        IfChain,
        ShellError,
    >::Err(ShellError::ElseWithoutIf) && post.state.rv == 1 && post.sources == pre.sources)
    &&& (match r {
        Result::Ok(chain) => {
            &&& chain.conditionals@.len() == chain.bodies@.len()
            &&& chain.conditionals@.len() >= 1
            &&& spec_conditional(line.raw_text@) == Option::Some(chain.conditionals@[0]@)
            &&& (block_available(pre.sources, kindv, ind) ==> chain.bodies@[0]@
                == pre.sources.buffer@.take(mp as int))
        },
        Result::Err(_) => true,
    })
    &&& (if_ready(pre, line) ==> (match r {
        Result::Ok(chain) => {
            let shape = spec_if_chain(pre.sources.buffer@.skip(mp as int));
            &&& chain.conditionals@.len() == 1 + shape.conditionals.len()
            &&& chain.conditionals.deep_view().skip(1) == shape.conditionals
            &&& chain.bodies@.len() == 1 + shape.bodies.len()
            &&& bodies_views(chain.bodies@).skip(1) == shape.bodies
            &&& chain.bodies@[0]@ == pre.sources.buffer@.take(mp as int)
            &&& (match (chain.else_body, shape.else_body) {
                (Option::Some(b), Option::Some(sb)) => b@ == sb,
                (Option::None, Option::None) => true,
                _ => false,
            })
            &&& post.sources.buffer@ == pre.sources.buffer@.skip(mp + shape.consumed)
            &&& post.sources.sources == pre.sources.sources
            &&& post.state == pre.state
        },
        Result::Err(_) => false,
    }))
}

/// Collects an `if` chain: the header's conditional and body, every
/// following `elif`'s conditional and body, and an `else` body if one
/// follows.  The first line that belongs to none of these goes back in
/// front of the next `get_line`.  An `elif` or `else` that arrives
/// here without its `if` is an error.
pub fn if_construct(smsh: &mut Shell, line: &Line) -> (r: Result<IfChain, ShellError>)
    ensures
        if_collect_post(*old(smsh), *final(smsh), *line, r),
{
    if line.is_elif() {
        smsh.set_rv(1);
        return Result::Err(ShellError::ElifWithoutIf);
    }
    if line.is_else() {
        smsh.set_rv(1);
        return Result::Err(ShellError::ElseWithoutIf);
    }

    let conditional = match line.get_conditional() {
        Result::Ok(c) => c,
        Result::Err(e) => {
            return Result::Err(e);
        },
    };

    let body = match smsh.get_block(line.source(), indent_below(line.indentation())) {
        Result::Ok(b) => b,
        Result::Err(e) => {
            return Result::Err(e);
        },
    };

    let mut conditionals = Vec::<String>::new();
    conditionals.push(conditional);
    let mut bodies = Vec::<Vec<Line>>::new();
    bodies.push(body);
    let mut else_body: Option<Vec<Line>> = Option::None;

    let ghost ready = if_ready(*old(smsh), *line);
    let ghost se = old(smsh).sources.sources@.len() == 0;
    let ghost buf0 = old(smsh).sources.buffer@;
    let ghost mp = match_prefix(
        buf0,
        line.line_id.source_kind@,
        spec_indent_below(line.indentation),
    );
    let ghost mut pos: int = mp as int;
    proof {
        crate::sources::lemma_match_prefix_bound(
            buf0,
            line.line_id.source_kind@,
            spec_indent_below(line.indentation),
        );
        if ready {
            assert(conditionals.deep_view().skip(1) =~= Seq::<Seq<char>>::empty());
            assert(bodies_views(bodies@).skip(1) =~= Seq::<Seq<Line>>::empty());
            assert(conditionals.deep_view().skip(1) + spec_if_chain(
                buf0.skip(pos),
            ).conditionals =~= spec_if_chain(buf0.skip(mp as int)).conditionals);
            assert(bodies_views(bodies@).skip(1) + spec_if_chain(buf0.skip(pos)).bodies
                =~= spec_if_chain(buf0.skip(mp as int)).bodies);
        }
    }

    loop
        invariant
            conditionals@.len() == bodies@.len(),
            conditionals@.len() >= 1,
            spec_conditional(line.raw_text@) == Option::Some(conditionals@[0]@),
            buf0 == old(smsh).sources.buffer@,
            mp == match_prefix(
                buf0,
                line.line_id.source_kind@,
                spec_indent_below(line.indentation),
            ),
            mp <= buf0.len(),
            crate::sources::block_available(
                old(smsh).sources,
                line.line_id.source_kind@,
                spec_indent_below(line.indentation),
            ) ==> bodies@[0]@ == buf0.take(mp as int),
            smsh.state.interactive == old(smsh).state.interactive,
            ready == if_ready(*old(smsh), *line),
            se == (old(smsh).sources.sources@.len() == 0),
            ready ==> {
                &&& mp <= pos <= buf0.len()
                &&& smsh.sources.buffer@ == buf0.skip(pos)
                &&& smsh.sources.sources == old(smsh).sources.sources
                &&& smsh.state == old(smsh).state
                &&& chain_ready(buf0.skip(pos), se)
                &&& else_body is None
                &&& conditionals.deep_view().skip(1) + spec_if_chain(buf0.skip(pos)).conditionals
                    == spec_if_chain(buf0.skip(mp as int)).conditionals
                &&& bodies_views(bodies@).skip(1) + spec_if_chain(buf0.skip(pos)).bodies
                    == spec_if_chain(buf0.skip(mp as int)).bodies
                &&& spec_if_chain(buf0.skip(pos)).consumed + pos - mp == spec_if_chain(
                    buf0.skip(mp as int),
                ).consumed
                &&& spec_if_chain(buf0.skip(pos)).else_body == spec_if_chain(
                    buf0.skip(mp as int),
                ).else_body
            },
            smsh.builtins == old(smsh).builtins,
            smsh.user_variables == old(smsh).user_variables,
            smsh.env_variables == old(smsh).env_variables,
            smsh.user_functions == old(smsh).user_functions,
        decreases crate::sources::sources_measure(smsh.sources),
    {
        let got = match smsh.get_line() {
            Result::Ok(got) => got,
            Result::Err(e) => {
                return Result::Err(e);
            },
        };
        match got {
            Option::None => {
                proof {
                    if ready {
                        if pos < buf0.len() {
                            assert(false);
                        } else {
                            assert(buf0.skip(pos).len() == 0);
                            assert(spec_if_chain(buf0.skip(pos)).conditionals
                                =~= Seq::<Seq<char>>::empty());
                            assert(conditionals.deep_view().skip(1) =~= spec_if_chain(
                                buf0.skip(mp as int),
                            ).conditionals);
                            assert(bodies_views(bodies@).skip(1) =~= spec_if_chain(
                                buf0.skip(mp as int),
                            ).bodies);
                            assert(smsh.sources.buffer@ =~= buf0.skip(
                                mp + spec_if_chain(buf0.skip(mp as int)).consumed,
                            ));
                        }
                    }
                }
                return Result::Ok(IfChain { conditionals, bodies, else_body });
            },
            Option::Some(next) => {
                proof {
                    if ready {
                        if pos < buf0.len() {
                            assert(next == buf0.skip(pos)[0]);
                            assert(smsh.sources.buffer@ =~= buf0.skip(pos + 1));
                        } else {
                            assert(false);
                        }
                    }
                }
                if next.is_elif() {
                    let ghost rest = buf0.skip(pos + 1);
                    let ghost mpe = clipped_prefix(
                        rest,
                        next.line_id.source_kind@,
                        spec_indent_below(next.indentation),
                    );
                    proof {
                        if ready {
                            assert(buf0.skip(pos).drop_first() =~= rest);
                            crate::sources::lemma_match_prefix_bound(
                                rest,
                                next.line_id.source_kind@,
                                spec_indent_below(next.indentation),
                            );
                        }
                    }
                    let c = match next.get_conditional() {
                        Result::Ok(c) => c,
                        Result::Err(e) => {
                            return Result::Err(e);
                        },
                    };
                    let b = match smsh.get_block(
                        next.source(),
                        indent_below(next.indentation()),
                    ) {
                        Result::Ok(b) => b,
                        Result::Err(e) => {
                            return Result::Err(e);
                        },
                    };
                    let ghost conds_before = conditionals.deep_view();
                    let ghost bodies_before = bodies_views(bodies@);
                    conditionals.push(c);
                    bodies.push(b);
                    proof {
                        if ready {
                            let shape_pos = spec_if_chain(buf0.skip(pos));
                            let tail = spec_if_chain(rest.skip(mpe));
                            assert(shape_pos.conditionals =~= seq![c@] + tail.conditionals);
                            assert(b@ == rest.take(mpe));
                            assert(shape_pos.bodies =~= seq![b@] + tail.bodies);
                            assert(conditionals.deep_view() =~= conds_before.push(c@));
                            assert(bodies_views(bodies@) =~= bodies_before.push(b@));
                            assert(conditionals.deep_view().skip(1) =~= conds_before.skip(
                                1,
                            ).push(c@));
                            assert(bodies_views(bodies@).skip(1) =~= bodies_before.skip(1).push(
                                b@,
                            ));
                            assert(conds_before.skip(1).push(c@) + tail.conditionals
                                =~= conds_before.skip(1) + (seq![c@] + tail.conditionals));
                            assert(bodies_before.skip(1).push(b@) + tail.bodies
                                =~= bodies_before.skip(1) + (seq![b@] + tail.bodies));
                            pos = pos + 1 + mpe;
                            assert(rest.skip(mpe) =~= buf0.skip(pos));
                        }
                    }
                } else if next.is_else() {
                    let ghost rest = buf0.skip(pos + 1);
                    let ghost mpe = clipped_prefix(
                        rest,
                        next.line_id.source_kind@,
                        spec_indent_below(next.indentation),
                    );
                    proof {
                        if ready {
                            assert(buf0.skip(pos).drop_first() =~= rest);
                            crate::sources::lemma_match_prefix_bound(
                                rest,
                                next.line_id.source_kind@,
                                spec_indent_below(next.indentation),
                            );
                        }
                    }
                    let b = match smsh.get_block(
                        next.source(),
                        indent_below(next.indentation()),
                    ) {
                        Result::Ok(b) => b,
                        Result::Err(e) => {
                            return Result::Err(e);
                        },
                    };
                    else_body = Option::Some(b);
                    proof {
                        if ready {
                            let shape_pos = spec_if_chain(buf0.skip(pos));
                            assert(shape_pos.conditionals =~= Seq::<Seq<char>>::empty());
                            assert(shape_pos.bodies =~= Seq::<Seq<Line>>::empty());
                            assert(b@ == rest.take(mpe));
                            assert(conditionals.deep_view().skip(1) =~= spec_if_chain(
                                buf0.skip(mp as int),
                            ).conditionals);
                            assert(bodies_views(bodies@).skip(1) =~= spec_if_chain(
                                buf0.skip(mp as int),
                            ).bodies);
                            assert(smsh.sources.buffer@ =~= buf0.skip(pos + 1 + mpe));
                            assert(smsh.sources.buffer@ =~= buf0.skip(
                                mp + spec_if_chain(buf0.skip(mp as int)).consumed,
                            ));
                        }
                    }
                    return Result::Ok(IfChain { conditionals, bodies, else_body });
                } else {
                    smsh.push_line(next);
                    proof {
                        if ready {
                            let shape_pos = spec_if_chain(buf0.skip(pos));
                            assert(shape_pos.conditionals =~= Seq::<Seq<char>>::empty());
                            assert(shape_pos.bodies =~= Seq::<Seq<Line>>::empty());
                            assert(conditionals.deep_view().skip(1) =~= spec_if_chain(
                                buf0.skip(mp as int),
                            ).conditionals);
                            assert(bodies_views(bodies@).skip(1) =~= spec_if_chain(
                                buf0.skip(mp as int),
                            ).bodies);
                            assert(smsh.sources.buffer@ =~= buf0.skip(pos));
                            assert(smsh.sources.buffer@ =~= buf0.skip(
                                mp + spec_if_chain(buf0.skip(mp as int)).consumed,
                            ));
                        }
                    }
                    return Result::Ok(IfChain { conditionals, bodies, else_body });
                }
            },
        }
    }
}

/// The index of the first true verdict, or the length if none is true.
pub open spec fn first_true_idx(vs: Seq<bool>) -> int
    decreases vs.len(),
{
    if vs.len() == 0 {
        0
    } else if vs[0] {
        0
    } else {
        1 + first_true_idx(vs.drop_first())
    }
}

/// The first true verdict is where it is: everything before is false.
pub proof fn lemma_first_true_idx(vs: Seq<bool>, k: int)
    requires
        0 <= k <= vs.len(),
        forall|j: int| 0 <= j < k ==> !vs[j],
        k == vs.len() || vs[k],
    ensures
        first_true_idx(vs) == k,
    decreases vs.len(),
{
    if vs.len() == 0 {
    } else if k == 0 {
    } else {
        lemma_first_true_idx(vs.drop_first(), k - 1);
    }
}

/// Applies conditional verdicts to a collected `if` chain: the body of
/// the first true conditional — or the `else` body, when every
/// conditional was evaluated false — goes in front of the next
/// `get_line`.  At most one body is pushed; with no true verdict and no
/// exhausted chain, nothing changes.
pub fn resolve_if(smsh: &mut Shell, chain: IfChain, verdicts: &Vec<bool>)
    ensures
        ({
            let k = first_true_idx(verdicts@);
            if k < verdicts@.len() && k < chain.bodies@.len() {
                final(smsh).sources.buffer@ == chain.bodies@[k]@ + old(smsh).sources.buffer@
            } else if k >= verdicts@.len() && verdicts@.len() >= chain.conditionals@.len() {
                match chain.else_body {
                    Option::Some(b) => final(smsh).sources.buffer@ == b@ + old(smsh).sources.buffer@,
                    Option::None => final(smsh).sources.buffer@ == old(smsh).sources.buffer@,
                }
            } else {
                final(smsh).sources.buffer@ == old(smsh).sources.buffer@
            }
        }),
        final(smsh).sources.sources == old(smsh).sources.sources,
        final(smsh).state == old(smsh).state,
        final(smsh).builtins == old(smsh).builtins,
        final(smsh).user_variables == old(smsh).user_variables,
        final(smsh).env_variables == old(smsh).env_variables,
        final(smsh).user_functions == old(smsh).user_functions,
{
    let mut chain = chain;
    let ghost c0 = chain;
    let mut i: usize = 0;
    let n = verdicts.len();
    while i < n
        invariant
            n == verdicts@.len(),
            i <= n,
            forall|j: int| 0 <= j < i ==> !verdicts@[j],
            chain == c0,
            *smsh == *old(smsh),
        decreases n - i,
    {
        if verdicts[i] {
            proof {
                lemma_first_true_idx(verdicts@, i as int);
            }
            if i < chain.bodies.len() {
                let body = chain.bodies.remove(i);
                smsh.push_block(body);
            }
            return;
        }
        i = i + 1;
    }
    proof {
        lemma_first_true_idx(verdicts@, n as int);
    }
    if verdicts.len() >= chain.conditionals.len() {
        match chain.else_body {
            Option::Some(b) => {
                smsh.push_block(b);
            },
            Option::None => {},
        }
    }
}

/// Collects a `while` clause: its conditional, its body, and a copy of
/// the header for requeueing.
/// How collecting a `while` clause leaves the shell: a header without
/// a conditional is the named error with nothing consumed; with a
/// conditional and the block reachable, success is owed, the clause
/// holds exactly that block and a copy of the header, and the block
/// has left the buffer.
pub open spec fn while_collect_post(
    pre: Shell,
    post: Shell,
    line: Line,
    tokens: Seq<crate::token::TokenView>,
    r: Result<WhileClause, ShellError>,
) -> bool {
    let kindv = line.line_id.source_kind@;
    let ind = spec_indent_below(line.indentation);
    let mp = match_prefix(pre.sources.buffer@, kindv, ind);
    &&& post.state == pre.state
    &&& post.builtins == pre.builtins
    &&& post.user_variables == pre.user_variables
    &&& post.env_variables == pre.env_variables
    &&& post.user_functions == pre.user_functions
    &&& (match r {
        Result::Ok(c) => {
            &&& spec_conditional(line.raw_text@) == Option::Some(c.conditional@)
            &&& c.header@ == (crate::line::LineView { tokens, ..line@ })
            &&& (block_available(pre.sources, kindv, ind) ==> c.body@ == pre.sources.buffer@.take(
                mp as int,
            ) && post.sources.buffer@ == pre.sources.buffer@.skip(mp as int)
                && post.sources.sources == pre.sources.sources)
        },
        Result::Err(_) => true,
    })
    &&& (spec_conditional(line.raw_text@) is None ==> r == Result::<
        WhileClause,
        ShellError,
    >::Err(ShellError::NoConditional) && post.sources == pre.sources)
    &&& ((spec_conditional(line.raw_text@) is Some && block_available(pre.sources, kindv, ind))
        ==> r is Ok)
}

pub fn while_construct(smsh: &mut Shell, line: &Line) -> (r: Result<WhileClause, ShellError>)
    ensures
        while_collect_post(*old(smsh), *final(smsh), *line, line.tokens.deep_view(), r),
{
    let conditional = match line.get_conditional() {
        Result::Ok(c) => c,
        Result::Err(e) => {
            return Result::Err(e);
        },
    };
    let body = match smsh.get_block(line.source(), indent_below(line.indentation())) {
        Result::Ok(b) => b,
        Result::Err(e) => {
            return Result::Err(e);
        },
    };
    Result::Ok(WhileClause { conditional, body, header: line.duplicate() })
}

/// Applies a conditional verdict to a collected `while` clause: when
/// true, the body, then the header, then the body again go in front of
/// the next `get_line` — the body runs once now, the header is
/// re-tested after it, and the trailing copy is the block the re-test
/// collects.  When false, nothing changes.
pub fn resolve_while(smsh: &mut Shell, clause: WhileClause, verdict: bool)
    ensures
        !verdict ==> final(smsh).sources.buffer@ == old(smsh).sources.buffer@,
        verdict ==> {
            let b = clause.body@.len() as int;
            let buf = final(smsh).sources.buffer@;
            &&& buf.len() == 2 * b + 1 + old(smsh).sources.buffer@.len()
            &&& (forall|i: int| 0 <= i < b ==> (#[trigger] buf[i])@ == clause.body@[i]@)
            &&& buf[b]@ == clause.header@
            &&& (forall|i: int| 0 <= i < b ==> (#[trigger] buf[b + 1 + i])@ == clause.body@[i]@)
            &&& (forall|i: int|
                0 <= i < old(smsh).sources.buffer@.len() ==> #[trigger] buf[2 * b + 1 + i] == old(smsh).sources.buffer@[i])
        },
        final(smsh).sources.sources == old(smsh).sources.sources,
        final(smsh).state == old(smsh).state,
        final(smsh).builtins == old(smsh).builtins,
        final(smsh).user_variables == old(smsh).user_variables,
        final(smsh).env_variables == old(smsh).env_variables,
        final(smsh).user_functions == old(smsh).user_functions,
{
    if verdict {
        let replay = duplicate_lines(&clause.body);
        smsh.push_block(clause.body);
        smsh.push_line(clause.header);
        smsh.push_block(replay);
    }
}

/// Interprets a `for` header: `for KEY in VALUE...`.  With no values
/// the body is collected and discarded; otherwise a loop source over
/// the values and the body goes on the stack.  Anything else is a
/// malformed loop.
/// The loop source a well-formed `for` header builds: fresh cursors
/// over the key, the values in order, and the collected body.
pub open spec fn for_source_obeys(f: For, av: Seq<Seq<char>>, line: Line) -> bool {
    &&& f.iterator_key@ == av[1]
    &&& f.iterator_values@.len() == av.len() - 3
    &&& (forall|i: int| 0 <= i < av.len() - 3 ==> (#[trigger] f.iterator_values@[i])@ == av[i + 3])
    &&& f.iter_idx == 0
    &&& f.line_num == 0
    &&& f.for_line_identifier.line_num == line.line_id.line_num
    &&& f.for_line_identifier.source_kind@ == line.line_id.source_kind@
}

/// How a `for` header leaves the shell: a malformed header is the
/// named error with nothing changed; the zero-value form discards the
/// reachable block and pushes nothing; otherwise, with the block
/// reachable, success is owed, a fresh loop source over the values and
/// exactly that block tops the stack, and `rv` is zero.
pub open spec fn for_post(
    pre: Shell,
    post: Shell,
    line: Line,
    tokens: Seq<crate::token::TokenView>,
    r: Result<(), ShellError>,
) -> bool {
    let av = spec_argv(tokens);
    let kindv = line.line_id.source_kind@;
    let ind = spec_indent_below(line.indentation);
    let mp = match_prefix(pre.sources.buffer@, kindv, ind);
    let avail = block_available(pre.sources, kindv, ind);
    &&& post.builtins == pre.builtins
    &&& post.user_variables == pre.user_variables
    &&& post.env_variables == pre.env_variables
    &&& post.user_functions == pre.user_functions
    &&& post.state.interactive == pre.state.interactive
    &&& ((av.len() < 3 || av[2] != kw_in()) ==> r == Result::<(), ShellError>::Err(
        ShellError::MalformedForLoop,
    ) && post == pre)
    &&& ((av.len() == 3 && av[2] == kw_in() && avail) ==> r is Ok && post.state == pre.state
        && post.sources.buffer@ == pre.sources.buffer@.skip(mp as int) && post.sources.sources
        == pre.sources.sources)
    &&& ((av.len() >= 4 && av[2] == kw_in() && avail) ==> r is Ok && post.state.rv == 0
        && post.sources.buffer@ == pre.sources.buffer@.skip(mp as int)
        && post.sources.sources@.len() == pre.sources.sources@.len() + 1 && (forall|i: int|
        0 <= i < pre.sources.sources@.len() ==> #[trigger] post.sources.sources@[i]
            == pre.sources.sources@[i]) && (match post.sources.sources@.last() {
        Source::For(f) => for_source_obeys(f, av, line) && f.body@ == pre.sources.buffer@.take(
            mp as int,
        ),
        _ => false,
    }))
    &&& ((av.len() >= 4 && av[2] == kw_in() && r is Ok) ==> final_for_top(post, av, line))
}

/// The stack's top is a fresh loop source for this header.
pub open spec fn final_for_top(post: Shell, av: Seq<Seq<char>>, line: Line) -> bool {
    &&& post.sources.sources@.len() >= 1
    &&& post.state.rv == 0
    &&& (match post.sources.sources@.last() {
        Source::For(f) => for_source_obeys(f, av, line),
        _ => false,
    })
}

pub fn for_construct(smsh: &mut Shell, line: &Line) -> (r: Result<(), ShellError>)
    ensures
        for_post(*old(smsh), *final(smsh), *line, line.tokens.deep_view(), r),
{
    proof {
        reveal_strlit("in");
        assert("in"@ =~= kw_in());
    }
    let argv = line.argv();
    if argv.len() == 3 && str_eq(argv[2].as_str(), "in") {
        // An empty loop: collect and discard the body.
        match smsh.get_block(line.source(), indent_below(line.indentation())) {
            Result::Ok(_) => {
                return Result::Ok(());
            },
            Result::Err(e) => {
                return Result::Err(e);
            },
        }
    }
    if argv.len() < 4 || !str_eq(argv[2].as_str(), "in") {
        return Result::Err(ShellError::MalformedForLoop);
    }

    let iterator_key = argv[1].clone();
    let ghost av = spec_argv(line.tokens.deep_view());
    let mut iterator_values = Vec::<String>::new();
    let mut i: usize = 3;
    while i < argv.len()
        invariant
            av == argv.deep_view(),
            3 <= i <= argv@.len(),
            iterator_values@.len() == i - 3,
            forall|j: int| 0 <= j < i - 3 ==> (#[trigger] iterator_values@[j])@ == av[j + 3],
        decreases argv@.len() - i,
    {
        iterator_values.push(argv[i].clone());
        i = i + 1;
    }

    let body = match smsh.get_block(line.source(), indent_below(line.indentation())) {
        Result::Ok(b) => b,
        Result::Err(e) => {
            return Result::Err(e);
        },
    };

    let id = LineID {
        source_kind: line.line_id.source_kind.duplicate(),
        line_num: line.line_id.line_num,
    };
    smsh.push_source(For::new(iterator_key, iterator_values, body, id).build_source());
    smsh.set_rv(0);
    Result::Ok(())
}

/// How a `let` line leaves the shell: a malformed invocation is the
/// named error with `rv` one and nothing else changed; otherwise one
/// binding of KEY to the space-joined words is appended, and the rest
/// of the shell is untouched.
pub open spec fn let_post(
    pre: Shell,
    post: Shell,
    tokens: Seq<crate::token::TokenView>,
    r: Result<(), ShellError>,
) -> bool {
    let av = spec_argv(tokens);
    &&& post.sources == pre.sources
    &&& post.builtins == pre.builtins
    &&& post.env_variables == pre.env_variables
    &&& post.user_functions == pre.user_functions
    &&& post.state.interactive == pre.state.interactive
    &&& if av.len() < 4 || av[2] != kw_equals() {
        &&& r == Result::<(), ShellError>::Err(ShellError::MalformedLet)
        &&& post.state.rv == 1
        &&& post.user_variables == pre.user_variables
    } else {
        &&& r is Ok
        &&& post.state == pre.state
        &&& post.user_variables@.len() == pre.user_variables@.len() + 1
        &&& post.user_variables@.last().0@ == av[1]
        &&& post.user_variables@.last().1@ == spec_join(av.skip(3))
        &&& post.user_variables@.take(pre.user_variables@.len() as int) == pre.user_variables@
    }
}

/// Joins argument texts with single spaces.
pub open spec fn spec_join(args: Seq<Seq<char>>) -> Seq<char>
    decreases args.len(),
{
    if args.len() == 0 {
        Seq::empty()
    } else if args.len() == 1 {
        args[0]
    } else {
        spec_join(args.drop_last()) + seq![' '] + args.last()
    }
}

/// Joining one more argument appends a space and the argument.
pub proof fn lemma_spec_join_push(args: Seq<Seq<char>>, a: Seq<char>)
    ensures
        spec_join(args.push(a)) == if args.len() == 0 {
            a
        } else {
            spec_join(args) + seq![' '] + a
        },
{
    assert(args.push(a).drop_last() =~= args);
    assert(args.push(a).last() == a);
    if args.len() == 0 {
        assert(args.push(a)[0] == a);
    }
}

/// Interprets a `let` line: `let KEY = WORD...`.  The words after `=`
/// join with single spaces and bind to KEY, overwriting any prior
/// value.  Anything else is a malformed invocation.
pub fn let_construct(smsh: &mut Shell, line: &Line) -> (r: Result<(), ShellError>)
    ensures
        let_post(*old(smsh), *final(smsh), line.tokens.deep_view(), r),
{
    proof {
        reveal_strlit("=");
        assert("="@ =~= kw_equals());
        reveal_strlit(" ");
        assert(" "@ =~= seq![' ']);
    }
    let argv = line.argv();
    if argv.len() < 4 || !str_eq(argv[2].as_str(), "=") {
        smsh.set_rv(1);
        return Result::Err(ShellError::MalformedLet);
    }

    let ghost av = spec_argv(line.tokens.deep_view());
    let key = argv[1].clone();
    let mut value = String::new();
    let mut i: usize = 3;
    proof {
        assert(av.skip(3).take(0int) =~= Seq::<Seq<char>>::empty());
    }
    while i < argv.len()
        invariant
            av == argv.deep_view(),
            3 <= i <= argv@.len(),
            av.len() >= 4,
            value@ == spec_join(av.skip(3).take(i - 3)),
        decreases argv@.len() - i,
    {
        proof {
            lemma_spec_join_push(av.skip(3).take(i - 3), av[i as int]);
            assert(av.skip(3).take(i - 3).push(av.skip(3)[i - 3]) =~= av.skip(3).take(i - 3 + 1));
            assert(av.skip(3)[i - 3] == av[i as int]);
        }
        if i > 3 {
            value.append(" ");
        }
        value.append(argv[i].as_str());
        i = i + 1;
    }
    proof {
        assert(av.skip(3).take(av.skip(3).len() as int) =~= av.skip(3));
    }
    let ghost before = smsh.user_variables@;
    smsh.insert_user_variable(key, value);
    proof {
        assert(smsh.user_variables@.take(before.len() as int) =~= before);
    }
    Result::Ok(())
}

/// Interprets a `fn` header: collects the following block, and — when
/// the header is exactly `fn NAME` — stores the block's raw text as the
/// function's body, replacing any prior function of that name.
/// How a `fn` header leaves the shell.  The block is collected and
/// consumed in every case; with exactly `fn NAME`, success is owed and
/// the table gains one function whose body is the block's raw text,
/// line for line; any other header is the named error with `rv` minus
/// one and the table untouched.
pub open spec fn fn_post(
    pre: Shell,
    post: Shell,
    line: Line,
    tokens: Seq<crate::token::TokenView>,
    r: Result<(), ShellError>,
) -> bool {
    let av = spec_argv(tokens);
    let kindv = line.line_id.source_kind@;
    let ind = spec_indent_below(line.indentation);
    let mp = match_prefix(pre.sources.buffer@, kindv, ind);
    &&& post.builtins == pre.builtins
    &&& post.user_variables == pre.user_variables
    &&& post.env_variables == pre.env_variables
    &&& post.state.interactive == pre.state.interactive
    &&& (match r {
        Result::Ok(_) => av.len() == 2 && post.user_functions@.len() == pre.user_functions@.len()
            + 1 && post.user_functions@.last().fn_name@ == av[1] && post.user_functions@.take(
            pre.user_functions@.len() as int,
        ) == pre.user_functions@,
        Result::Err(_) => av.len() == 2 ==> post.user_functions == pre.user_functions,
    })
    &&& (block_available(pre.sources, kindv, ind) ==> {
        &&& post.sources.buffer@ == pre.sources.buffer@.skip(mp as int)
        &&& post.sources.sources == pre.sources.sources
        &&& if av.len() == 2 {
            &&& r is Ok
            &&& post.state == pre.state
            &&& post.user_functions@.last().fn_body@.len() == mp
            &&& (forall|i: int|
                0 <= i < mp ==> (#[trigger] post.user_functions@.last().fn_body@[i])@
                    == pre.sources.buffer@[i].raw_text@)
        } else {
            &&& r == Result::<(), ShellError>::Err(ShellError::MalformedFunctionDefinition)
            &&& post.state.rv == -1
            &&& post.user_functions == pre.user_functions
        }
    })
}

pub fn fn_construct(smsh: &mut Shell, line: &Line) -> (r: Result<(), ShellError>)
    ensures
        fn_post(*old(smsh), *final(smsh), *line, line.tokens.deep_view(), r),
{
    // Collect the block first: a malformed header still discards it.
    let block = match smsh.get_block(line.source(), indent_below(line.indentation())) {
        Result::Ok(b) => b,
        Result::Err(e) => {
            return Result::Err(e);
        },
    };

    let argv = line.argv();
    if argv.len() != 2 {
        smsh.set_rv(-1);
        return Result::Err(ShellError::MalformedFunctionDefinition);
    }

    let mut fn_body = Vec::<String>::new();
    let mut i: usize = 0;
    while i < block.len()
        invariant
            i <= block@.len(),
            fn_body@.len() == i,
            forall|j: int| 0 <= j < i ==> (#[trigger] fn_body@[j])@ == block@[j].raw_text@,
        decreases block@.len() - i,
    {
        fn_body.push(block[i].raw_text.clone());
        i = i + 1;
    }

    let fn_name = argv[1].clone();
    let ghost fnb = fn_body@;
    let ghost blk = block@;
    let ghost before = smsh.user_functions@;
    smsh.insert_user_function(UserFunction::new(fn_name, fn_body));
    proof {
        assert(smsh.user_functions@.take(before.len() as int) =~= before);
        assert(smsh.user_functions@.last().fn_body@ == fnb);
        crate::sources::lemma_match_prefix_bound(
            old(smsh).sources.buffer@,
            line.line_id.source_kind@,
            spec_indent_below(line.indentation),
        );
        assert forall|k: int| 0 <= k < fnb.len() implies (#[trigger] smsh.user_functions@.last()
            .fn_body@[k])@ == blk[k].raw_text@ by {
            assert(smsh.user_functions@.last().fn_body@[k] == fnb[k]);
        }
    }
    Result::Ok(())
}

} // verus!
