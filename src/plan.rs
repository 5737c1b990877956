//! Plan trees and their signatures.
//!
//! A signature renders each node as a token for its kind, followed by the
//! fields that decide how it executes, then its sub-plans. Nodes that hold a
//! list of sub-plans render it as `[a,b,...]` right after their token; a node
//! with a left or right child ends with ` (left,right)`.
use vstd::prelude::*;
use vstd::string::StringExecFns;
use crate::names::{alias_of, get_alias, get_index, index_name_of, IndexCatalog, RangeTable};
use crate::text::{
    int_text, lemma_extended_prefix, lemma_prefix_of_concat, lemma_prefix_trans, push_int,
};

verus! {

broadcast use vstd::std_specs::vec::group_vec_axioms;

/// A scalar expression that stands as a parameter of a plan node.
#[derive(Clone, Copy, Debug, PartialEq, Eq, Structural)]
pub enum ScalarNode {
    /// An integer literal.
    Integer { value: i32 },
    /// Any other expression kind, by its node tag.
    Other { tag: u32 },
}

/// Why no signature could be computed.
#[derive(Clone, Copy, Debug, PartialEq, Eq, Structural)]
pub enum SignatureError {
    /// A plan node of a kind that signatures do not cover, by its node tag.
    UnrecognizedPlanNodeKind { tag: u32 },
    /// A scalar parameter of a kind that signatures do not cover.
    UnrecognizedScalarKind { tag: u32 },
}

/// The kind of a plan node, with the fields of that kind that a signature
/// renders. Counts of key or clause lists are held as their lengths.
#[derive(Debug)]
pub enum PlanKind {
    SeqScan { scan_target_ref: u32 },
    IndexScan { scan_target_ref: u32, index_ref: u32 },
    IndexOnlyScan { scan_target_ref: u32, index_ref: u32 },
    BitmapIndexScan { scan_target_ref: u32, index_ref: u32 },
    BitmapHeapScan { scan_target_ref: u32 },
    NestLoop { join_type: u32 },
    MergeJoin { join_type: u32, clause_count: i32 },
    HashJoin { join_type: u32, key_count: i32 },
    Hash { key_count: i32 },
    Material,
    Memoize { key_count: i32 },
    Sort { sort_column_count: i32 },
    IncrementalSort { sort_column_count: i32, presorted_column_count: i32 },
    Group { group_column_count: i32 },
    Agg { strategy: u32, split_mode: u32 },
    Limit { offset: Option<ScalarNode>, count: Option<ScalarNode>, limit_option: u32 },
    Gather { worker_count: i32 },
    GatherMerge { worker_count: i32, sort_column_count: i32 },
    BitmapAnd { plans: Vec<PlanNode> },
    BitmapOr { plans: Vec<PlanNode> },
    Result,
    Append { plans: Vec<PlanNode> },
    SubqueryScan { subplan: Option<Box<PlanNode>> },
    /// A node kind that signatures do not cover, by its node tag.
    Unrecognized { tag: u32 },
}

/// A node of a plan tree: its kind and its optional left and right children.
#[derive(Debug)]
pub struct PlanNode {
    pub kind: PlanKind,
    pub left: Option<Box<PlanNode>>,
    pub right: Option<Box<PlanNode>>,
}

/// What a scalar parameter contributes: nothing when absent, the literal
/// padded by one space on each side when an integer.
pub open spec fn scalar_sig(s: Option<ScalarNode>) -> Result<Seq<char>, SignatureError> {
    match s {
        None => Ok(Seq::empty()),
        Some(ScalarNode::Integer { value }) => Ok(seq![' '] + int_text(value as int) + seq![' ']),
        Some(ScalarNode::Other { tag }) => Err(SignatureError::UnrecognizedScalarKind { tag }),
    }
}

/// A token followed by one number.
pub open spec fn num1(tok: Seq<char>, a: int) -> Seq<char> {
    tok + int_text(a)
}

/// A token followed by two numbers, separated by a space.
pub open spec fn num2(tok: Seq<char>, a: int, b: int) -> Seq<char> {
    tok + int_text(a) + seq![' '] + int_text(b)
}

/// A token followed by two names, separated by a space.
pub open spec fn name2(tok: Seq<char>, a: Seq<char>, b: Seq<char>) -> Seq<char> {
    tok + a + seq![' '] + b
}

/// Appends `b`'s text to `a`'s, keeping the first error.
pub open spec fn cat(
    a: Result<Seq<char>, SignatureError>,
    b: Result<Seq<char>, SignatureError>,
) -> Result<Seq<char>, SignatureError> {
    match a {
        Err(e) => Err(e),
        Ok(x) => match b {
            Err(e) => Err(e),
            Ok(y) => Ok(x + y),
        },
    }
}

/// A bracketed sub-plan list after its token: `tok[` entries `]`.
pub open spec fn bracketed(tok: Seq<char>, inner: Result<Seq<char>, SignatureError>) -> Result<
    Seq<char>,
    SignatureError,
> {
    cat(cat(Ok(tok), inner), Ok(seq![']']))
}

/// The signatures of a list of sub-plans, separated by commas, in order.
pub open spec fn list_sig(rt: RangeTable, names: IndexCatalog, s: Seq<PlanNode>) -> Result<
    Seq<char>,
    SignatureError,
>
    decreases s, 2nat,
{
    if s.len() == 0 {
        Ok(Seq::empty())
    } else if s.len() == 1 {
        plan_sig(rt, names, s[0])
    } else {
        cat(cat(list_sig(rt, names, s.drop_last()), Ok(seq![','])), plan_sig(rt, names, s.last()))
    }
}

/// The signature of an optional sub-plan: empty when absent.
pub open spec fn opt_sig(rt: RangeTable, names: IndexCatalog, n: Option<Box<PlanNode>>) -> Result<
    Seq<char>,
    SignatureError,
>
    decreases n, 2nat,
{
    match n {
        None => Ok(Seq::empty()),
        Some(b) => plan_sig(rt, names, *b),
    }
}

/// The part of a node's signature that its kind decides.
pub open spec fn head_sig(rt: RangeTable, names: IndexCatalog, n: PlanNode) -> Result<
    Seq<char>,
    SignatureError,
>
    decreases n, 0nat,
{
    let idx = |i: u32| index_name_of(names.hook_view(), names.catalog_view(), i);
    match n.kind {
        PlanKind::SeqScan { scan_target_ref } => Ok("SeqScan "@ + alias_of(rt@, scan_target_ref as int)),
        PlanKind::IndexScan { scan_target_ref, index_ref } => Ok(
            name2("IndexScan "@, alias_of(rt@, scan_target_ref as int), idx(index_ref)),
        ),
        PlanKind::IndexOnlyScan { scan_target_ref, index_ref } => Ok(
            name2("IndexOnlyScan "@, alias_of(rt@, scan_target_ref as int), idx(index_ref)),
        ),
        PlanKind::BitmapIndexScan { scan_target_ref, index_ref } => Ok(
            name2("BitmapIndexScan "@, alias_of(rt@, scan_target_ref as int), idx(index_ref)),
        ),
        PlanKind::BitmapHeapScan { scan_target_ref } => Ok(
            "BitmapHeapScan "@ + alias_of(rt@, scan_target_ref as int),
        ),
        PlanKind::NestLoop { join_type } => Ok(num1("NestLoop "@, join_type as int)),
        PlanKind::MergeJoin { join_type, clause_count } => Ok(
            num2("MergeJoin "@, join_type as int, clause_count as int),
        ),
        PlanKind::HashJoin { join_type, key_count } => Ok(
            num2("HashJoin "@, join_type as int, key_count as int),
        ),
        PlanKind::Hash { key_count } => Ok(num1("Hash "@, key_count as int)),
        PlanKind::Material => Ok("Material"@),
        PlanKind::Memoize { key_count } => Ok(num1("Memoize "@, key_count as int)),
        PlanKind::Sort { sort_column_count } => Ok(num1("Sort "@, sort_column_count as int)),
        PlanKind::IncrementalSort { sort_column_count, presorted_column_count } => Ok(
            num2("IncrementalSort "@, sort_column_count as int, presorted_column_count as int),
        ),
        PlanKind::Group { group_column_count } => Ok(num1("Group "@, group_column_count as int)),
        PlanKind::Agg { strategy, split_mode } => Ok(
            num2("Agg "@, strategy as int, split_mode as int),
        ),
        PlanKind::Limit { offset, count, limit_option } => cat(
            cat(cat(Ok("Limit"@), scalar_sig(offset)), scalar_sig(count)),
            Ok(int_text(limit_option as int)),
        ),
        PlanKind::Gather { worker_count } => Ok(num1("Gather "@, worker_count as int)),
        PlanKind::GatherMerge { worker_count, sort_column_count } => Ok(
            num2("GatherMerge "@, worker_count as int, sort_column_count as int),
        ),
        PlanKind::BitmapAnd { plans } => bracketed("BitmapAnd ["@, list_sig(rt, names, plans@)),
        PlanKind::BitmapOr { plans } => bracketed("BitmapOr ["@, list_sig(rt, names, plans@)),
        PlanKind::Result => Ok("Result"@),
        PlanKind::Append { plans } => bracketed("Append ["@, list_sig(rt, names, plans@)),
        PlanKind::SubqueryScan { subplan } => bracketed("SubqueryScan ["@, opt_sig(rt, names, subplan)),
        PlanKind::Unrecognized { tag } => Err(SignatureError::UnrecognizedPlanNodeKind { tag }),
    }
}

/// The signature of a plan tree: its kind's part, then, where it has a
/// left or right child, ` (` left `,` right `)` with the comma only between
/// two children. An error is the first one met in that order.
pub open spec fn plan_sig(rt: RangeTable, names: IndexCatalog, n: PlanNode) -> Result<
    Seq<char>,
    SignatureError,
>
    decreases n, 1nat,
{
    let h = head_sig(rt, names, n);
    if n.left is None && n.right is None {
        h
    } else {
        let l = opt_sig(rt, names, n.left);
        let r = opt_sig(rt, names, n.right);
        let comma: Seq<char> = if n.left is Some && n.right is Some {
            seq![',']
        } else {
            Seq::empty()
        };
        cat(cat(cat(cat(h, Ok(seq![' ', '('])), l), Ok(comma)), cat(r, Ok(seq![')'])))
    }
}

/// Whether a step that should append the text `s` did so: on `Ok(t)` it
/// returned `Ok` and `after` is `before` followed by `t`; on an error it
/// returned that error, having only appended to `before`.
pub open spec fn appended(
    before: Seq<char>,
    after: Seq<char>,
    r: Result<(), SignatureError>,
    s: Result<Seq<char>, SignatureError>,
) -> bool {
    match s {
        Ok(t) => r is Ok && after == before + t,
        Err(e) => r == Err::<(), SignatureError>(e) && before.is_prefix_of(after),
    }
}

fn push_num1(out: &mut String, tok: &str, a: i64)
    ensures
        final(out)@ == old(out)@ + num1(tok@, a as int),
{
    out.append(tok);
    push_int(out, a);
    proof {
        assert(out@ =~= old(out)@ + num1(tok@, a as int));
    }
}

fn push_num2(out: &mut String, tok: &str, a: i64, b: i64)
    ensures
        final(out)@ == old(out)@ + num2(tok@, a as int, b as int),
{
    out.append(tok);
    push_int(out, a);
    out.append(" ");
    push_int(out, b);
    proof {
        reveal_strlit(" ");
        assert(out@ =~= old(out)@ + num2(tok@, a as int, b as int));
    }
}

fn push_scan(out: &mut String, tok: &str, scan_target_ref: u32, rt: &RangeTable)
    ensures
        final(out)@ == old(out)@ + (tok@ + alias_of(rt@, scan_target_ref as int)),
{
    out.append(tok);
    let a = get_alias(scan_target_ref, rt);
    out.append(a.as_str());
    proof {
        assert(out@ =~= old(out)@ + (tok@ + alias_of(rt@, scan_target_ref as int)));
    }
}

fn push_index_scan(
    out: &mut String,
    tok: &str,
    scan_target_ref: u32,
    index_ref: u32,
    rt: &RangeTable,
    names: &IndexCatalog,
)
    ensures
        final(out)@ == old(out)@ + name2(
            tok@,
            alias_of(rt@, scan_target_ref as int),
            index_name_of(names.hook_view(), names.catalog_view(), index_ref),
        ),
{
    push_scan(out, tok, scan_target_ref, rt);
    out.append(" ");
    let i = get_index(index_ref, names);
    out.append(i.as_str());
    proof {
        reveal_strlit(" ");
        assert(out@ =~= old(out)@ + name2(
            tok@,
            alias_of(rt@, scan_target_ref as int),
            index_name_of(names.hook_view(), names.catalog_view(), index_ref),
        ));
    }
}

/// Appends what a scalar parameter contributes to a signature: nothing when
/// absent, ` <value> ` for an integer literal; any other kind is an error.
pub fn compute_node_signature(node: &Option<ScalarNode>, output: &mut String) -> (r: Result<
    (),
    SignatureError,
>)
    ensures
        appended(old(output)@, final(output)@, r, scalar_sig(*node)),
{
    match node {
        None => {
            proof {
                assert(output@ =~= old(output)@ + Seq::<char>::empty());
            }
            Ok(())
        },
        Some(ScalarNode::Integer { value }) => {
            output.append(" ");
            push_int(output, *value as i64);
            output.append(" ");
            proof {
                reveal_strlit(" ");
                assert(output@ =~= old(output)@ + (seq![' '] + int_text(*value as int) + seq![' ']));
            }
            Ok(())
        },
        Some(ScalarNode::Other { tag }) => {
            proof {
                lemma_prefix_of_concat(output@, Seq::empty());
                assert(output@ + Seq::<char>::empty() =~= output@);
            }
            Err(SignatureError::UnrecognizedScalarKind { tag: *tag })
        },
    }
}

/// An error in the signature of a non-empty prefix of a sub-plan list is
/// the error of the whole list.
proof fn lemma_list_prefix_error(rt: RangeTable, names: IndexCatalog, s: Seq<PlanNode>, k: int)
    requires
        1 <= k <= s.len(),
        list_sig(rt, names, s.subrange(0, k)) is Err,
    ensures
        list_sig(rt, names, s) == list_sig(rt, names, s.subrange(0, k)),
    decreases s.len() - k,
{
    if k == s.len() {
        assert(s.subrange(0, k) =~= s);
    } else {
        assert(s.drop_last().subrange(0, k) =~= s.subrange(0, k));
        lemma_list_prefix_error(rt, names, s.drop_last(), k);
    }
}

fn push_list(rt: &RangeTable, names: &IndexCatalog, plans: &Vec<PlanNode>, out: &mut String) -> (r:
    Result<(), SignatureError>)
    ensures
        appended(old(out)@, final(out)@, r, list_sig(*rt, *names, plans@)),
    decreases plans, 2nat,
{
    let ghost start = out@;
    let mut i: usize = 0;
    proof {
        assert(plans@.subrange(0, 0) =~= Seq::<PlanNode>::empty());
        assert(out@ =~= start + Seq::<char>::empty());
    }
    while i < plans.len()
        invariant
            i <= plans.len(),
            start == old(out)@,
            list_sig(*rt, *names, plans@.subrange(0, i as int)) is Ok,
            out@ == start + list_sig(*rt, *names, plans@.subrange(0, i as int))->Ok_0,
        decreases plans.len() - i,
    {
        let ghost prefix = plans@.subrange(0, i as int);
        let ghost next = plans@.subrange(0, i + 1);
        proof {
            assert(next.drop_last() =~= prefix);
            assert(next.last() == plans@[i as int]);
            if i == 0 {
                assert(next[0] == plans@[0]);
            }
        }
        if i > 0 {
            out.append(",");
        }
        let ghost mid = out@;
        let step = push_plan(rt, names, &plans[i], out);
        match step {
            Err(e) => {
                proof {
                    lemma_list_prefix_error(*rt, *names, plans@, i + 1);
                    assert(mid =~= start + (mid.subrange(start.len() as int, mid.len() as int)));
                    lemma_prefix_of_concat(start, mid.subrange(start.len() as int, mid.len() as int));
                    lemma_prefix_trans(start, mid, out@);
                }
                return Err(e);
            },
            Ok(()) => {},
        }
        proof {
            reveal_strlit(",");
            assert(out@ =~= start + list_sig(*rt, *names, next)->Ok_0);
        }
        i = i + 1;
    }
    proof {
        assert(plans@.subrange(0, plans.len() as int) =~= plans@);
    }
    Ok(())
}

fn push_opt(rt: &RangeTable, names: &IndexCatalog, node: &Option<Box<PlanNode>>, out: &mut String) -> (r:
    Result<(), SignatureError>)
    ensures
        appended(old(out)@, final(out)@, r, opt_sig(*rt, *names, *node)),
    decreases node, 2nat,
{
    match node {
        None => {
            proof {
                assert(out@ =~= old(out)@ + Seq::<char>::empty());
            }
            Ok(())
        },
        Some(b) => push_plan(rt, names, b, out),
    }
}

fn push_bracketed(
    rt: &RangeTable,
    names: &IndexCatalog,
    tok: &str,
    plans: &Vec<PlanNode>,
    out: &mut String,
) -> (r: Result<(), SignatureError>)
    ensures
        appended(old(out)@, final(out)@, r, bracketed(tok@, list_sig(*rt, *names, plans@))),
    decreases plans, 3nat,
{
    out.append(tok);
    let ghost mid = out@;
    let r = push_list(rt, names, plans, out);
    match r {
        Err(e) => {
            proof {
                lemma_prefix_of_concat(old(out)@, tok@);
                lemma_prefix_trans(old(out)@, mid, out@);
            }
            Err(e)
        },
        Ok(()) => {
            out.append("]");
            proof {
                reveal_strlit("]");
                assert(out@ =~= old(out)@ + bracketed(tok@, list_sig(*rt, *names, plans@))->Ok_0);
            }
            Ok(())
        },
    }
}

fn push_head(rt: &RangeTable, names: &IndexCatalog, node: &PlanNode, out: &mut String) -> (r:
    Result<(), SignatureError>)
    ensures
        appended(old(out)@, final(out)@, r, head_sig(*rt, *names, *node)),
    decreases node, 0nat,
{
    proof {
        reveal_strlit("Material");
        reveal_strlit("Result");
    }
    match &node.kind {
        PlanKind::SeqScan { scan_target_ref } => {
            push_scan(out, "SeqScan ", *scan_target_ref, rt);
            Ok(())
        },
        PlanKind::IndexScan { scan_target_ref, index_ref } => {
            push_index_scan(out, "IndexScan ", *scan_target_ref, *index_ref, rt, names);
            Ok(())
        },
        PlanKind::IndexOnlyScan { scan_target_ref, index_ref } => {
            push_index_scan(out, "IndexOnlyScan ", *scan_target_ref, *index_ref, rt, names);
            Ok(())
        },
        PlanKind::BitmapIndexScan { scan_target_ref, index_ref } => {
            push_index_scan(out, "BitmapIndexScan ", *scan_target_ref, *index_ref, rt, names);
            Ok(())
        },
        PlanKind::BitmapHeapScan { scan_target_ref } => {
            push_scan(out, "BitmapHeapScan ", *scan_target_ref, rt);
            Ok(())
        },
        PlanKind::NestLoop { join_type } => {
            push_num1(out, "NestLoop ", *join_type as i64);
            Ok(())
        },
        PlanKind::MergeJoin { join_type, clause_count } => {
            push_num2(out, "MergeJoin ", *join_type as i64, *clause_count as i64);
            Ok(())
        },
        PlanKind::HashJoin { join_type, key_count } => {
            push_num2(out, "HashJoin ", *join_type as i64, *key_count as i64);
            Ok(())
        },
        PlanKind::Hash { key_count } => {
            push_num1(out, "Hash ", *key_count as i64);
            Ok(())
        },
        PlanKind::Material => {
            out.append("Material");
            Ok(())
        },
        PlanKind::Memoize { key_count } => {
            push_num1(out, "Memoize ", *key_count as i64);
            Ok(())
        },
        PlanKind::Sort { sort_column_count } => {
            push_num1(out, "Sort ", *sort_column_count as i64);
            Ok(())
        },
        PlanKind::IncrementalSort { sort_column_count, presorted_column_count } => {
            push_num2(
                out,
                "IncrementalSort ",
                *sort_column_count as i64,
                *presorted_column_count as i64,
            );
            Ok(())
        },
        PlanKind::Group { group_column_count } => {
            push_num1(out, "Group ", *group_column_count as i64);
            Ok(())
        },
        PlanKind::Agg { strategy, split_mode } => {
            push_num2(out, "Agg ", *strategy as i64, *split_mode as i64);
            Ok(())
        },
        PlanKind::Limit { offset, count, limit_option } => {
            out.append("Limit");
            let ghost a = out@;
            match compute_node_signature(offset, out) {
                Err(e) => {
                    proof {
                        lemma_extended_prefix(old(out)@, "Limit"@, a, out@);
                    }
                    return Err(e);
                },
                Ok(()) => {},
            }
            let ghost b = out@;
            match compute_node_signature(count, out) {
                Err(e) => {
                    proof {
                        lemma_extended_prefix(
                            old(out)@,
                            "Limit"@ + scalar_sig(*offset)->Ok_0,
                            b,
                            out@,
                        );
                    }
                    return Err(e);
                },
                Ok(()) => {},
            }
            push_int(out, *limit_option as i64);
            proof {
                assert(out@ =~= old(out)@ + head_sig(*rt, *names, *node)->Ok_0);
            }
            Ok(())
        },
        PlanKind::Gather { worker_count } => {
            push_num1(out, "Gather ", *worker_count as i64);
            Ok(())
        },
        PlanKind::GatherMerge { worker_count, sort_column_count } => {
            push_num2(out, "GatherMerge ", *worker_count as i64, *sort_column_count as i64);
            Ok(())
        },
        PlanKind::BitmapAnd { plans } => push_bracketed(rt, names, "BitmapAnd [", plans, out),
        PlanKind::BitmapOr { plans } => push_bracketed(rt, names, "BitmapOr [", plans, out),
        PlanKind::Result => {
            out.append("Result");
            Ok(())
        },
        PlanKind::Append { plans } => push_bracketed(rt, names, "Append [", plans, out),
        PlanKind::SubqueryScan { subplan } => {
            out.append("SubqueryScan [");
            let ghost a = out@;
            match push_opt(rt, names, subplan, out) {
                Err(e) => {
                    proof {
                        lemma_extended_prefix(old(out)@, "SubqueryScan ["@, a, out@);
                    }
                    return Err(e);
                },
                Ok(()) => {},
            }
            out.append("]");
            proof {
                reveal_strlit("]");
                assert(out@ =~= old(out)@ + head_sig(*rt, *names, *node)->Ok_0);
            }
            Ok(())
        },
        PlanKind::Unrecognized { tag } => {
            proof {
                lemma_prefix_of_concat(out@, Seq::empty());
                assert(out@ + Seq::<char>::empty() =~= out@);
            }
            Err(SignatureError::UnrecognizedPlanNodeKind { tag: *tag })
        },
    }
}

fn push_plan(rt: &RangeTable, names: &IndexCatalog, node: &PlanNode, out: &mut String) -> (r:
    Result<(), SignatureError>)
    ensures
        appended(old(out)@, final(out)@, r, plan_sig(*rt, *names, *node)),
    decreases node, 1nat,
{
    match push_head(rt, names, node, out) {
        Err(e) => {
            return Err(e);
        },
        Ok(()) => {},
    }
    if node.left.is_none() && node.right.is_none() {
        return Ok(());
    }
    out.append(" (");
    let ghost p = out@;
    let ghost h = head_sig(*rt, *names, *node)->Ok_0;
    match push_opt(rt, names, &node.left, out) {
        Err(e) => {
            proof {
                reveal_strlit(" (");
                lemma_extended_prefix(old(out)@, h + " ("@, p, out@);
            }
            return Err(e);
        },
        Ok(()) => {},
    }
    if node.left.is_some() && node.right.is_some() {
        out.append(",");
    }
    let ghost q = out@;
    match push_opt(rt, names, &node.right, out) {
        Err(e) => {
            proof {
                lemma_extended_prefix(old(out)@, q.subrange(old(out)@.len() as int, q.len() as int), q, out@);
            }
            return Err(e);
        },
        Ok(()) => {},
    }
    out.append(")");
    proof {
        reveal_strlit(" (");
        reveal_strlit(",");
        reveal_strlit(")");
        assert(out@ =~= old(out)@ + plan_sig(*rt, *names, *node)->Ok_0);
    }
    Ok(())
}

/// The signature of an optional plan tree: empty when absent.
pub open spec fn root_sig(rt: RangeTable, names: IndexCatalog, node: Option<&PlanNode>) -> Result<
    Seq<char>,
    SignatureError,
> {
    match node {
        None => Ok(Seq::empty()),
        Some(n) => plan_sig(rt, names, *n),
    }
}

/// Appends the signature of the plan tree rooted at `node` to `output`;
/// an absent node appends nothing. Table aliases come from `rt`, index
/// names from `names`. A node or scalar parameter of a kind that
/// signatures do not cover makes the whole computation fail with that
/// kind's error.
pub fn compute_plan_signature(
    rt: &RangeTable,
    names: &IndexCatalog,
    node: Option<&PlanNode>,
    output: &mut String,
) -> (r: Result<(), SignatureError>)
    ensures
        appended(old(output)@, final(output)@, r, root_sig(*rt, *names, node)),
{
    match node {
        None => {
            proof {
                assert(output@ =~= old(output)@ + Seq::<char>::empty());
            }
            Ok(())
        },
        Some(n) => push_plan(rt, names, n, output),
    }
}

/// Whether `r` is the outcome that the signature of `node` calls for: the
/// signature's text, or its error.
pub open spec fn signature_result(
    rt: RangeTable,
    names: IndexCatalog,
    node: PlanNode,
    r: Result<String, SignatureError>,
) -> bool {
    match plan_sig(rt, names, node) {
        Ok(s) => r is Ok && r->Ok_0@ == s,
        Err(e) => r == Err::<String, SignatureError>(e),
    }
}

/// The signature of the plan tree rooted at `node`, as a new string.
pub fn plan_signature(rt: &RangeTable, names: &IndexCatalog, node: &PlanNode) -> (r: Result<
    String,
    SignatureError,
>)
    ensures
        signature_result(*rt, *names, *node, r),
{
    let mut out = String::new();
    match push_plan(rt, names, node, &mut out) {
        Err(e) => Err(e),
        Ok(()) => {
            proof {
                assert(out@ =~= plan_sig(*rt, *names, *node)->Ok_0);
            }
            Ok(out)
        },
    }
}

} // verus!
