//! Properties of plan signatures that hold for every input.
use vstd::prelude::*;
use crate::names::{unknown_text, IndexCatalog, RangeTable};
use crate::plan::{
    head_sig, list_sig, num1, num2, opt_sig, plan_sig, signature_result, PlanKind, PlanNode,
    SignatureError,
};
use crate::text::{int_text, lemma_int_text_injective, lemma_int_text_no_space};

verus! {

broadcast use vstd::std_specs::vec::group_vec_axioms;

/// A Limit node with neither offset nor count renders `Limit` directly
/// followed by its limit option: nothing stands between them.
pub proof fn lemma_limit_without_bounds(rt: RangeTable, names: IndexCatalog, n: PlanNode)
    requires
        n.kind matches PlanKind::Limit { offset, count, .. } && offset is None && count is None,
        n.left is None,
        n.right is None,
    ensures
        plan_sig(rt, names, n) == Ok::<Seq<char>, SignatureError>(
            "Limit"@ + int_text(n.kind->limit_option as int),
        ),
{
    assert("Limit"@ + Seq::<char>::empty() + Seq::<char>::empty() =~= "Limit"@);
}

/// The range-table reference of a scan node's kind.
pub open spec fn scan_ref(k: PlanKind) -> Option<u32> {
    match k {
        PlanKind::SeqScan { scan_target_ref } => Some(scan_target_ref),
        PlanKind::IndexScan { scan_target_ref, .. } => Some(scan_target_ref),
        PlanKind::IndexOnlyScan { scan_target_ref, .. } => Some(scan_target_ref),
        PlanKind::BitmapIndexScan { scan_target_ref, .. } => Some(scan_target_ref),
        PlanKind::BitmapHeapScan { scan_target_ref } => Some(scan_target_ref),
        _ => None,
    }
}

/// A scan whose table reference has no range-table entry still gets its
/// part of the signature, with `UNKNOWN` as the table right after the
/// scan's token.
pub proof fn lemma_alias_fallback(rt: RangeTable, names: IndexCatalog, n: PlanNode)
    requires
        scan_ref(n.kind) is Some,
        !(1 <= scan_ref(n.kind)->0 <= rt@.len()),
    ensures
        head_sig(rt, names, n) is Ok,
        head_sig(rt, names, n)->Ok_0.len() >= kind_token(n.kind).len() + unknown_text().len(),
        head_sig(rt, names, n)->Ok_0.subrange(
            kind_token(n.kind).len() as int,
            (kind_token(n.kind).len() + unknown_text().len()) as int,
        ) == unknown_text(),
{
    let h = head_sig(rt, names, n)->Ok_0;
    let t = kind_token(n.kind);
    assert(h.subrange(t.len() as int, (t.len() + unknown_text().len()) as int) =~= unknown_text());
}

/// A sequential scan without children whose table reference has no
/// range-table entry signs as `SeqScan UNKNOWN`.
pub proof fn lemma_seq_scan_fallback(rt: RangeTable, names: IndexCatalog, n: PlanNode)
    requires
        n.kind is SeqScan,
        !(1 <= n.kind->SeqScan_scan_target_ref <= rt@.len()),
        n.left is None,
        n.right is None,
    ensures
        plan_sig(rt, names, n) == Ok::<Seq<char>, SignatureError>("SeqScan "@ + unknown_text()),
{
}

/// Whether the node itself, or a sub-plan it lists, is of a kind that
/// signatures do not cover.
pub open spec fn kind_has_unrecognized(n: PlanNode) -> bool
    decreases n, 0nat,
{
    match n.kind {
        PlanKind::Unrecognized { .. } => true,
        PlanKind::BitmapAnd { plans } => list_has_unrecognized(plans@),
        PlanKind::BitmapOr { plans } => list_has_unrecognized(plans@),
        PlanKind::Append { plans } => list_has_unrecognized(plans@),
        PlanKind::SubqueryScan { subplan } => opt_has_unrecognized(subplan),
        _ => false,
    }
}

/// Whether some node of the tree is of a kind that signatures do not cover.
pub open spec fn has_unrecognized(n: PlanNode) -> bool
    decreases n, 1nat,
{
    kind_has_unrecognized(n) || opt_has_unrecognized(n.left) || opt_has_unrecognized(n.right)
}

/// Whether some tree of the list holds a node of an uncovered kind.
pub open spec fn list_has_unrecognized(s: Seq<PlanNode>) -> bool
    decreases s, 2nat,
{
    if s.len() == 0 {
        false
    } else {
        list_has_unrecognized(s.drop_last()) || has_unrecognized(s.last())
    }
}

/// Whether an optional tree holds a node of an uncovered kind.
pub open spec fn opt_has_unrecognized(o: Option<Box<PlanNode>>) -> bool
    decreases o, 2nat,
{
    match o {
        None => false,
        Some(b) => has_unrecognized(*b),
    }
}

proof fn lemma_head_fails(rt: RangeTable, names: IndexCatalog, n: PlanNode)
    requires
        kind_has_unrecognized(n),
    ensures
        head_sig(rt, names, n) is Err,
    decreases n, 0nat,
{
    match n.kind {
        PlanKind::BitmapAnd { plans } => lemma_list_fails(rt, names, plans@),
        PlanKind::BitmapOr { plans } => lemma_list_fails(rt, names, plans@),
        PlanKind::Append { plans } => lemma_list_fails(rt, names, plans@),
        PlanKind::SubqueryScan { subplan } => lemma_opt_fails(rt, names, subplan),
        _ => {},
    }
}

proof fn lemma_list_fails(rt: RangeTable, names: IndexCatalog, s: Seq<PlanNode>)
    requires
        list_has_unrecognized(s),
    ensures
        list_sig(rt, names, s) is Err,
    decreases s, 2nat,
{
    if list_has_unrecognized(s.drop_last()) {
        lemma_list_fails(rt, names, s.drop_last());
        assert(s.len() != 1);
    } else {
        lemma_plan_fails(rt, names, s.last());
        if s.len() == 1 {
            assert(s.last() == s[0]);
        }
    }
}

proof fn lemma_opt_fails(rt: RangeTable, names: IndexCatalog, o: Option<Box<PlanNode>>)
    requires
        opt_has_unrecognized(o),
    ensures
        opt_sig(rt, names, o) is Err,
    decreases o, 2nat,
{
    match o {
        None => {},
        Some(b) => lemma_plan_fails(rt, names, *b),
    }
}

/// A tree with a node of a kind that signatures do not cover, anywhere in
/// it, has no signature: the computation fails.
pub proof fn lemma_plan_fails(rt: RangeTable, names: IndexCatalog, n: PlanNode)
    requires
        has_unrecognized(n),
    ensures
        plan_sig(rt, names, n) is Err,
    decreases n, 1nat,
{
    if kind_has_unrecognized(n) {
        lemma_head_fails(rt, names, n);
    } else if opt_has_unrecognized(n.left) {
        lemma_opt_fails(rt, names, n.left);
    } else {
        lemma_opt_fails(rt, names, n.right);
    }
}

/// Whether two contexts hold the same aliases and the same index names.
pub open spec fn same_context(
    rt1: RangeTable,
    names1: IndexCatalog,
    rt2: RangeTable,
    names2: IndexCatalog,
) -> bool {
    &&& rt1@ == rt2@
    &&& names1.hook_view() == names2.hook_view()
    &&& names1.catalog_view() == names2.catalog_view()
}

proof fn lemma_head_context(
    rt1: RangeTable,
    names1: IndexCatalog,
    rt2: RangeTable,
    names2: IndexCatalog,
    n: PlanNode,
)
    requires
        same_context(rt1, names1, rt2, names2),
    ensures
        head_sig(rt1, names1, n) == head_sig(rt2, names2, n),
    decreases n, 0nat,
{
    match n.kind {
        PlanKind::BitmapAnd { plans } => lemma_list_context(rt1, names1, rt2, names2, plans@),
        PlanKind::BitmapOr { plans } => lemma_list_context(rt1, names1, rt2, names2, plans@),
        PlanKind::Append { plans } => lemma_list_context(rt1, names1, rt2, names2, plans@),
        PlanKind::SubqueryScan { subplan } => lemma_opt_context(rt1, names1, rt2, names2, subplan),
        _ => {},
    }
}

proof fn lemma_list_context(
    rt1: RangeTable,
    names1: IndexCatalog,
    rt2: RangeTable,
    names2: IndexCatalog,
    s: Seq<PlanNode>,
)
    requires
        same_context(rt1, names1, rt2, names2),
    ensures
        list_sig(rt1, names1, s) == list_sig(rt2, names2, s),
    decreases s, 2nat,
{
    if s.len() == 1 {
        lemma_plan_context(rt1, names1, rt2, names2, s[0]);
    } else if s.len() > 1 {
        lemma_list_context(rt1, names1, rt2, names2, s.drop_last());
        lemma_plan_context(rt1, names1, rt2, names2, s.last());
    }
}

proof fn lemma_opt_context(
    rt1: RangeTable,
    names1: IndexCatalog,
    rt2: RangeTable,
    names2: IndexCatalog,
    o: Option<Box<PlanNode>>,
)
    requires
        same_context(rt1, names1, rt2, names2),
    ensures
        opt_sig(rt1, names1, o) == opt_sig(rt2, names2, o),
    decreases o, 2nat,
{
    match o {
        None => {},
        Some(b) => lemma_plan_context(rt1, names1, rt2, names2, *b),
    }
}

proof fn lemma_plan_context(
    rt1: RangeTable,
    names1: IndexCatalog,
    rt2: RangeTable,
    names2: IndexCatalog,
    n: PlanNode,
)
    requires
        same_context(rt1, names1, rt2, names2),
    ensures
        plan_sig(rt1, names1, n) == plan_sig(rt2, names2, n),
    decreases n, 1nat,
{
    lemma_head_context(rt1, names1, rt2, names2, n);
    lemma_opt_context(rt1, names1, rt2, names2, n.left);
    lemma_opt_context(rt1, names1, rt2, names2, n.right);
}

/// Two signature computations of one plan tree, in contexts that hold the
/// same aliases and index names, have the same outcome: the same text, or
/// the same error.
pub proof fn lemma_signature_deterministic(
    rt1: RangeTable,
    names1: IndexCatalog,
    rt2: RangeTable,
    names2: IndexCatalog,
    n: PlanNode,
    r1: Result<String, SignatureError>,
    r2: Result<String, SignatureError>,
)
    requires
        same_context(rt1, names1, rt2, names2),
        signature_result(rt1, names1, n, r1),
        signature_result(rt2, names2, n, r2),
    ensures
        r1 is Ok <==> r2 is Ok,
        r1 is Ok ==> r1->Ok_0@ == r2->Ok_0@,
        r1 is Err ==> r1 == r2,
{
    lemma_plan_context(rt1, names1, rt2, names2, n);
}

/// Whether `y` is `x` followed by a comma and possibly more.
pub open spec fn comma_extends(x: Seq<char>, y: Seq<char>) -> bool {
    y.len() > x.len() && y.subrange(0, x.len() as int) == x && y[x.len() as int] == ','
}

/// Two texts joined by a comma read differently in the other order, where
/// they differ and neither is the other followed by a comma.
proof fn lemma_swap_differs(pre: Seq<char>, sa: Seq<char>, sb: Seq<char>, post: Seq<char>)
    requires
        sa != sb,
        !comma_extends(sa, sb),
        !comma_extends(sb, sa),
    ensures
        pre + sa + seq![','] + sb + post != pre + sb + seq![','] + sa + post,
{
    let x1 = pre + sa + seq![','] + sb + post;
    let x2 = pre + sb + seq![','] + sa + post;
    if x1 == x2 {
        let k = pre.len() as int;
        let m = if sa.len() < sb.len() {
            sa.len() as int
        } else {
            sb.len() as int
        };
        assert forall|i: int| 0 <= i < m implies sa[i] == sb[i] by {
            assert(x1[k + i] == sa[i]);
            assert(x2[k + i] == sb[i]);
        }
        if sa.len() == sb.len() {
            assert(sa =~= sb);
        } else if sa.len() < sb.len() {
            assert(sb.subrange(0, sa.len() as int) =~= sa);
            assert(x1[k + sa.len()] == ',');
            assert(x2[k + sa.len()] == sb[sa.len() as int]);
        } else {
            assert(sa.subrange(0, sb.len() as int) =~= sb);
            assert(x2[k + sb.len()] == ',');
            assert(x1[k + sb.len()] == sa[sb.len() as int]);
        }
    }
}

/// Swapping the two sub-plans of an Append node changes its signature,
/// where the two sub-plans have different signatures and neither one's is
/// the other's followed by a comma.
pub proof fn lemma_append_order(
    rt: RangeTable,
    names: IndexCatalog,
    forward: PlanNode,
    swapped: PlanNode,
    a: PlanNode,
    b: PlanNode,
)
    requires
        forward.kind is Append,
        swapped.kind is Append,
        forward.kind->Append_plans@ == seq![a, b],
        swapped.kind->Append_plans@ == seq![b, a],
        forward.left is None && forward.right is None,
        swapped.left is None && swapped.right is None,
        plan_sig(rt, names, a) is Ok,
        plan_sig(rt, names, b) is Ok,
        plan_sig(rt, names, a) != plan_sig(rt, names, b),
        !comma_extends(plan_sig(rt, names, a)->Ok_0, plan_sig(rt, names, b)->Ok_0),
        !comma_extends(plan_sig(rt, names, b)->Ok_0, plan_sig(rt, names, a)->Ok_0),
    ensures
        plan_sig(rt, names, forward) is Ok,
        plan_sig(rt, names, swapped) is Ok,
        plan_sig(rt, names, forward) != plan_sig(rt, names, swapped),
{
    let sa = plan_sig(rt, names, a)->Ok_0;
    let sb = plan_sig(rt, names, b)->Ok_0;
    assert(seq![a, b].drop_last() =~= seq![a]);
    assert(seq![b, a].drop_last() =~= seq![b]);
    assert(list_sig(rt, names, seq![a]) == plan_sig(rt, names, a)) by {
        assert(seq![a][0] == a);
    }
    assert(list_sig(rt, names, seq![b]) == plan_sig(rt, names, b)) by {
        assert(seq![b][0] == b);
    }
    assert(list_sig(rt, names, seq![a, b]) == Ok::<Seq<char>, SignatureError>(sa + seq![','] + sb));
    assert(list_sig(rt, names, seq![b, a]) == Ok::<Seq<char>, SignatureError>(sb + seq![','] + sa));
    let x1 = "Append ["@ + sa + seq![','] + sb + seq![']'];
    let x2 = "Append ["@ + sb + seq![','] + sa + seq![']'];
    assert(plan_sig(rt, names, forward) == Ok::<Seq<char>, SignatureError>(x1)) by {
        assert("Append ["@ + (sa + seq![','] + sb) + seq![']'] =~= x1);
    }
    assert(plan_sig(rt, names, swapped) == Ok::<Seq<char>, SignatureError>(x2)) by {
        assert("Append ["@ + (sb + seq![','] + sa) + seq![']'] =~= x2);
    }
    lemma_swap_differs("Append ["@, sa, sb, seq![']']);
}

/// Swapping the left and right children of a node changes its signature,
/// where the two children have different signatures and neither one's is
/// the other's followed by a comma.
pub proof fn lemma_children_order(
    rt: RangeTable,
    names: IndexCatalog,
    forward: PlanNode,
    swapped: PlanNode,
)
    requires
        head_sig(rt, names, forward) == head_sig(rt, names, swapped),
        forward.left is Some && forward.right is Some,
        swapped.left == forward.right,
        swapped.right == forward.left,
        plan_sig(rt, names, forward) is Ok,
        opt_sig(rt, names, forward.left) != opt_sig(rt, names, forward.right),
        !comma_extends(
            opt_sig(rt, names, forward.left)->Ok_0,
            opt_sig(rt, names, forward.right)->Ok_0,
        ),
        !comma_extends(
            opt_sig(rt, names, forward.right)->Ok_0,
            opt_sig(rt, names, forward.left)->Ok_0,
        ),
    ensures
        plan_sig(rt, names, swapped) is Ok,
        plan_sig(rt, names, forward) != plan_sig(rt, names, swapped),
{
    lemma_plan_split(rt, names, forward);
    let h = head_sig(rt, names, forward)->Ok_0;
    let sa = opt_sig(rt, names, forward.left)->Ok_0;
    let sb = opt_sig(rt, names, forward.right)->Ok_0;
    assert(plan_sig(rt, names, forward)->Ok_0 =~= (h + seq![' ', '(']) + sa + seq![','] + sb
        + seq![')']);
    assert(plan_sig(rt, names, swapped)->Ok_0 =~= (h + seq![' ', '(']) + sb + seq![','] + sa
        + seq![')']);
    lemma_swap_differs(h + seq![' ', '('], sa, sb, seq![')']);
}

/// The children part of a signature whose sub-plans all have signatures:
/// empty without children, else ` (` left `,` right `)`.
pub open spec fn tail_text(
    rt: RangeTable,
    names: IndexCatalog,
    l: Option<Box<PlanNode>>,
    r: Option<Box<PlanNode>>,
) -> Seq<char> {
    if l is None && r is None {
        Seq::empty()
    } else {
        let comma: Seq<char> = if l is Some && r is Some {
            seq![',']
        } else {
            Seq::empty()
        };
        seq![' ', '('] + opt_sig(rt, names, l)->Ok_0 + comma + opt_sig(rt, names, r)->Ok_0 + seq![')']
    }
}

/// A signature is the node's own part followed by its children part.
pub proof fn lemma_plan_split(rt: RangeTable, names: IndexCatalog, n: PlanNode)
    requires
        plan_sig(rt, names, n) is Ok,
    ensures
        head_sig(rt, names, n) is Ok,
        opt_sig(rt, names, n.left) is Ok,
        opt_sig(rt, names, n.right) is Ok,
        plan_sig(rt, names, n)->Ok_0 == head_sig(rt, names, n)->Ok_0 + tail_text(
            rt,
            names,
            n.left,
            n.right,
        ),
{
    if !(n.left is None && n.right is None) {
        assert(plan_sig(rt, names, n)->Ok_0 =~= head_sig(rt, names, n)->Ok_0 + tail_text(
            rt,
            names,
            n.left,
            n.right,
        ));
    } else {
        assert(plan_sig(rt, names, n)->Ok_0 =~= head_sig(rt, names, n)->Ok_0 + Seq::<char>::empty());
    }
}

/// The token and the two numbers of the kinds that render two numbers.
pub open spec fn two_numbers(k: PlanKind) -> Option<(Seq<char>, int, int)> {
    match k {
        PlanKind::MergeJoin { join_type, clause_count } => Some(
            ("MergeJoin "@, join_type as int, clause_count as int),
        ),
        PlanKind::HashJoin { join_type, key_count } => Some(
            ("HashJoin "@, join_type as int, key_count as int),
        ),
        PlanKind::IncrementalSort { sort_column_count, presorted_column_count } => Some(
            ("IncrementalSort "@, sort_column_count as int, presorted_column_count as int),
        ),
        PlanKind::Agg { strategy, split_mode } => Some(
            ("Agg "@, strategy as int, split_mode as int),
        ),
        PlanKind::GatherMerge { worker_count, sort_column_count } => Some(
            ("GatherMerge "@, worker_count as int, sort_column_count as int),
        ),
        _ => None,
    }
}

/// The token and the number of the kinds that render one number.
pub open spec fn one_number(k: PlanKind) -> Option<(Seq<char>, int)> {
    match k {
        PlanKind::NestLoop { join_type } => Some(("NestLoop "@, join_type as int)),
        PlanKind::Hash { key_count } => Some(("Hash "@, key_count as int)),
        PlanKind::Memoize { key_count } => Some(("Memoize "@, key_count as int)),
        PlanKind::Sort { sort_column_count } => Some(("Sort "@, sort_column_count as int)),
        PlanKind::Group { group_column_count } => Some(("Group "@, group_column_count as int)),
        PlanKind::Gather { worker_count } => Some(("Gather "@, worker_count as int)),
        _ => None,
    }
}

proof fn lemma_same_tail(
    rt: RangeTable,
    names: IndexCatalog,
    n1: PlanNode,
    n2: PlanNode,
    h1: Seq<char>,
    h2: Seq<char>,
)
    requires
        n1.left == n2.left,
        n1.right == n2.right,
        plan_sig(rt, names, n1) is Ok,
        head_sig(rt, names, n1) == Ok::<Seq<char>, SignatureError>(h1),
        head_sig(rt, names, n2) == Ok::<Seq<char>, SignatureError>(h2),
    ensures
        plan_sig(rt, names, n2) is Ok,
        plan_sig(rt, names, n1) == plan_sig(rt, names, n2) ==> h1 == h2,
{
    lemma_plan_split(rt, names, n1);
    let t = tail_text(rt, names, n1.left, n1.right);
    assert(plan_sig(rt, names, n2)->Ok_0 =~= h2 + t) by {
        if !(n2.left is None && n2.right is None) {
            assert(plan_sig(rt, names, n2)->Ok_0 =~= h2 + tail_text(rt, names, n2.left, n2.right));
        }
    }
    if plan_sig(rt, names, n1) == plan_sig(rt, names, n2) {
        assert((h1 + t).subrange(0, h1.len() as int) =~= h1);
        assert((h2 + t).subrange(0, h2.len() as int) =~= h2);
    }
}

/// Two nodes with the same children, of one kind that renders two numbers
/// (join type and key count, worker and column counts, aggregate strategy
/// and split mode, ...), have different signatures where the numbers differ.
pub proof fn lemma_two_numbers_distinguish(
    rt: RangeTable,
    names: IndexCatalog,
    n1: PlanNode,
    n2: PlanNode,
)
    requires
        n1.left == n2.left,
        n1.right == n2.right,
        two_numbers(n1.kind) is Some,
        two_numbers(n2.kind) is Some,
        (two_numbers(n1.kind)->0).0 == (two_numbers(n2.kind)->0).0,
        two_numbers(n1.kind) != two_numbers(n2.kind),
        plan_sig(rt, names, n1) is Ok,
    ensures
        plan_sig(rt, names, n2) is Ok,
        plan_sig(rt, names, n1) != plan_sig(rt, names, n2),
{
    let (tok, a1, b1) = two_numbers(n1.kind)->0;
    let (tok2, a2, b2) = two_numbers(n2.kind)->0;
    let h1 = num2(tok, a1, b1);
    let h2 = num2(tok, a2, b2);
    lemma_same_tail(rt, names, n1, n2, h1, h2);
    if plan_sig(rt, names, n1) == plan_sig(rt, names, n2) {
        let m1 = int_text(a1) + seq![' '] + int_text(b1);
        let m2 = int_text(a2) + seq![' '] + int_text(b2);
        assert(h1 =~= tok + m1);
        assert(h2 =~= tok + m2);
        assert(m1 =~= h1.subrange(tok.len() as int, h1.len() as int));
        assert(m2 =~= h2.subrange(tok.len() as int, h2.len() as int));
        lemma_int_text_no_space(a1);
        lemma_int_text_no_space(a2);
        let k1 = int_text(a1).len() as int;
        let k2 = int_text(a2).len() as int;
        if k1 < k2 {
            assert(m1[k1] == ' ');
            assert(m2[k1] == int_text(a2)[k1]);
        } else if k2 < k1 {
            assert(m2[k2] == ' ');
            assert(m1[k2] == int_text(a1)[k2]);
        } else {
            assert(m1.subrange(0, k1) =~= int_text(a1));
            assert(m2.subrange(0, k1) =~= int_text(a2));
            assert(m1.subrange(k1 + 1, m1.len() as int) =~= int_text(b1));
            assert(m2.subrange(k1 + 1, m2.len() as int) =~= int_text(b2));
            lemma_int_text_injective(a1, a2);
            lemma_int_text_injective(b1, b2);
        }
    }
}

/// Two nodes with the same children, of one kind that renders one number
/// (join type, key count, column count or worker count), have different
/// signatures where the numbers differ.
pub proof fn lemma_one_number_distinguishes(
    rt: RangeTable,
    names: IndexCatalog,
    n1: PlanNode,
    n2: PlanNode,
)
    requires
        n1.left == n2.left,
        n1.right == n2.right,
        one_number(n1.kind) is Some,
        one_number(n2.kind) is Some,
        (one_number(n1.kind)->0).0 == (one_number(n2.kind)->0).0,
        one_number(n1.kind) != one_number(n2.kind),
        plan_sig(rt, names, n1) is Ok,
    ensures
        plan_sig(rt, names, n2) is Ok,
        plan_sig(rt, names, n1) != plan_sig(rt, names, n2),
{
    let (tok, a1) = one_number(n1.kind)->0;
    let (tok2, a2) = one_number(n2.kind)->0;
    let h1 = num1(tok, a1);
    let h2 = num1(tok, a2);
    lemma_same_tail(rt, names, n1, n2, h1, h2);
    if plan_sig(rt, names, n1) == plan_sig(rt, names, n2) {
        assert(int_text(a1) =~= h1.subrange(tok.len() as int, h1.len() as int));
        assert(int_text(a2) =~= h2.subrange(tok.len() as int, h2.len() as int));
        lemma_int_text_injective(a1, a2);
    }
}

/// Two nodes with the same own part and the same children present, whose
/// children differ in signature on one side only, have different
/// signatures: a difference in a sub-plan shows in every plan above it.
pub proof fn lemma_child_distinguishes(
    rt: RangeTable,
    names: IndexCatalog,
    n1: PlanNode,
    n2: PlanNode,
)
    requires
        head_sig(rt, names, n1) == head_sig(rt, names, n2),
        n1.left is Some <==> n2.left is Some,
        n1.right is Some <==> n2.right is Some,
        (opt_sig(rt, names, n1.left) == opt_sig(rt, names, n2.left) && opt_sig(rt, names, n1.right)
            != opt_sig(rt, names, n2.right)) || (opt_sig(rt, names, n1.left) != opt_sig(
            rt,
            names,
            n2.left,
        ) && opt_sig(rt, names, n1.right) == opt_sig(rt, names, n2.right)),
        plan_sig(rt, names, n1) is Ok,
        plan_sig(rt, names, n2) is Ok,
    ensures
        plan_sig(rt, names, n1) != plan_sig(rt, names, n2),
{
    lemma_plan_split(rt, names, n1);
    lemma_plan_split(rt, names, n2);
    let h = head_sig(rt, names, n1)->Ok_0;
    let l1 = opt_sig(rt, names, n1.left)->Ok_0;
    let l2 = opt_sig(rt, names, n2.left)->Ok_0;
    let r1 = opt_sig(rt, names, n1.right)->Ok_0;
    let r2 = opt_sig(rt, names, n2.right)->Ok_0;
    let comma: Seq<char> = if n1.left is Some && n1.right is Some {
        seq![',']
    } else {
        Seq::empty()
    };
    let s1 = plan_sig(rt, names, n1)->Ok_0;
    let s2 = plan_sig(rt, names, n2)->Ok_0;
    if s1 == s2 {
        let p = h + seq![' ', '('];
        assert(s1 =~= p + l1 + comma + r1 + seq![')']);
        assert(s2 =~= p + l2 + comma + r2 + seq![')']);
        if l1 == l2 {
            let q = p + l1 + comma;
            assert(r1 =~= s1.subrange(q.len() as int, s1.len() - 1));
            assert(r2 =~= s2.subrange(q.len() as int, s2.len() - 1));
        } else {
            assert(l1 =~= s1.subrange(p.len() as int, (p.len() + l1.len()) as int));
            assert(l2 =~= s2.subrange(p.len() as int, (p.len() + l2.len()) as int));
        }
    }
}

/// The text that a node's signature starts with, fixed by its kind.
pub open spec fn kind_token(k: PlanKind) -> Seq<char> {
    match k {
        PlanKind::SeqScan { .. } => "SeqScan "@,
        PlanKind::IndexScan { .. } => "IndexScan "@,
        PlanKind::IndexOnlyScan { .. } => "IndexOnlyScan "@,
        PlanKind::BitmapIndexScan { .. } => "BitmapIndexScan "@,
        PlanKind::BitmapHeapScan { .. } => "BitmapHeapScan "@,
        PlanKind::NestLoop { .. } => "NestLoop "@,
        PlanKind::MergeJoin { .. } => "MergeJoin "@,
        PlanKind::HashJoin { .. } => "HashJoin "@,
        PlanKind::Hash { .. } => "Hash "@,
        PlanKind::Material { .. } => "Material"@,
        PlanKind::Memoize { .. } => "Memoize "@,
        PlanKind::Sort { .. } => "Sort "@,
        PlanKind::IncrementalSort { .. } => "IncrementalSort "@,
        PlanKind::Group { .. } => "Group "@,
        PlanKind::Agg { .. } => "Agg "@,
        PlanKind::Limit { .. } => "Limit"@,
        PlanKind::Gather { .. } => "Gather "@,
        PlanKind::GatherMerge { .. } => "GatherMerge "@,
        PlanKind::BitmapAnd { .. } => "BitmapAnd ["@,
        PlanKind::BitmapOr { .. } => "BitmapOr ["@,
        PlanKind::Result { .. } => "Result"@,
        PlanKind::Append { .. } => "Append ["@,
        PlanKind::SubqueryScan { .. } => "SubqueryScan ["@,
        PlanKind::Unrecognized { .. } => Seq::empty(),
    }
}

proof fn lemma_head_starts_with_token(rt: RangeTable, names: IndexCatalog, n: PlanNode)
    requires
        head_sig(rt, names, n) is Ok,
    ensures
        kind_token(n.kind).len() <= head_sig(rt, names, n)->Ok_0.len(),
        head_sig(rt, names, n)->Ok_0.subrange(0, kind_token(n.kind).len() as int) == kind_token(n.kind),
{
    let h = head_sig(rt, names, n)->Ok_0;
    let t = kind_token(n.kind);
    assert(h.subrange(0, t.len() as int) =~= t);
}

/// Two different kind tokens differ within their first seven characters.
#[verifier::spinoff_prover]
#[verifier::rlimit(100)]
proof fn lemma_tokens_differ_early(k1: PlanKind, k2: PlanKind)
    requires
        kind_token(k1) != kind_token(k2),
        !(k1 is Unrecognized),
        !(k2 is Unrecognized),
    ensures
        !(forall|i: int|
            0 <= i < 7 && i < kind_token(k1).len() && i < kind_token(k2).len() ==> kind_token(k1)[i]
                == kind_token(k2)[i]),
{
    reveal_strlit("SeqScan ");
    reveal_strlit("IndexScan ");
    reveal_strlit("IndexOnlyScan ");
    reveal_strlit("BitmapIndexScan ");
    reveal_strlit("BitmapHeapScan ");
    reveal_strlit("NestLoop ");
    reveal_strlit("MergeJoin ");
    reveal_strlit("HashJoin ");
    reveal_strlit("Hash ");
    reveal_strlit("Material");
    reveal_strlit("Memoize ");
    reveal_strlit("Sort ");
    reveal_strlit("IncrementalSort ");
    reveal_strlit("Group ");
    reveal_strlit("Agg ");
    reveal_strlit("Limit");
    reveal_strlit("Gather ");
    reveal_strlit("GatherMerge ");
    reveal_strlit("BitmapAnd [");
    reveal_strlit("BitmapOr [");
    reveal_strlit("Result");
    reveal_strlit("Append [");
    reveal_strlit("SubqueryScan [");
    let t1 = kind_token(k1);
    let t2 = kind_token(k2);
    if forall|i: int| 0 <= i < 7 && i < t1.len() && i < t2.len() ==> t1[i] == t2[i] {
        assert(t1.len() > 0 ==> t2.len() > 0 ==> t1[0] == t2[0]);
        assert(t1.len() > 1 ==> t2.len() > 1 ==> t1[1] == t2[1]);
        assert(t1.len() > 2 ==> t2.len() > 2 ==> t1[2] == t2[2]);
        assert(t1.len() > 3 ==> t2.len() > 3 ==> t1[3] == t2[3]);
        assert(t1.len() > 4 ==> t2.len() > 4 ==> t1[4] == t2[4]);
        assert(t1.len() > 5 ==> t2.len() > 5 ==> t1[5] == t2[5]);
        assert(t1.len() > 6 ==> t2.len() > 6 ==> t1[6] == t2[6]);
    }
}

/// Nodes of different kinds have different signatures, whatever their
/// fields and children.
pub proof fn lemma_kind_distinguishes(rt: RangeTable, names: IndexCatalog, n1: PlanNode, n2: PlanNode)
    requires
        kind_token(n1.kind) != kind_token(n2.kind),
        plan_sig(rt, names, n1) is Ok,
        plan_sig(rt, names, n2) is Ok,
    ensures
        plan_sig(rt, names, n1) != plan_sig(rt, names, n2),
{
    lemma_plan_split(rt, names, n1);
    lemma_plan_split(rt, names, n2);
    lemma_head_starts_with_token(rt, names, n1);
    lemma_head_starts_with_token(rt, names, n2);
    let s1 = plan_sig(rt, names, n1)->Ok_0;
    let s2 = plan_sig(rt, names, n2)->Ok_0;
    let t1 = kind_token(n1.kind);
    let t2 = kind_token(n2.kind);
    if s1 == s2 {
        assert forall|i: int| 0 <= i < t1.len() && i < t2.len() implies t1[i] == t2[i] by {
            assert(s1[i] == head_sig(rt, names, n1)->Ok_0.subrange(0, t1.len() as int)[i]);
            assert(s2[i] == head_sig(rt, names, n2)->Ok_0.subrange(0, t2.len() as int)[i]);
        }
        lemma_tokens_differ_early(n1.kind, n2.kind);
    }
}

} // verus!
