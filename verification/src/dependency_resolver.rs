//! Ordering the declared types so that every type comes after the types it
//! refers to, and working out which names each module has to import.
use crate::error::{ConvertError, ConvertErrorView};
use crate::text::{
    last_segment, lemma_lex_irreflexive, lemma_lex_total, lemma_lex_transitive, lex_le, lex_lt,
    module_prefix, path_last_segment, path_module_prefix, str_eq, str_lt,
};
use crate::type_parser::{
    full_path, make_full_path, EnumInfo, EnumInfoView, EnumVariantView, FieldInfo, FieldInfoView,
    StructInfo, StructInfoView, TypeKind, TypeKindView,
};
use vstd::prelude::*;

verus! {

/// The paths of the structs and enums that a type refers to, in the order
/// in which they occur in it.
pub open spec fn kind_dependencies(kind: TypeKindView) -> Seq<Seq<char>>
    decreases kind,
{
    match kind {
        TypeKindView::Struct(_, path) => seq![path],
        TypeKindView::Enum(_, path) => seq![path],
        TypeKindView::Vec(inner) => kind_dependencies(*inner),
        TypeKindView::Option(inner) => kind_dependencies(*inner),
        TypeKindView::Array(inner, _) => kind_dependencies(*inner),
        TypeKindView::HashMap(key, value) => kind_dependencies(*key) + kind_dependencies(*value),
        _ => Seq::empty(),
    }
}

/// The paths that a list of fields refers to, field by field.
pub open spec fn fields_dependencies(fields: Seq<FieldInfoView>) -> Seq<Seq<char>>
    decreases fields.len(),
{
    if fields.len() == 0 {
        Seq::empty()
    } else {
        fields_dependencies(fields.drop_last()) + kind_dependencies(fields.last().type_kind)
    }
}

/// The paths that the variants of an enum refer to, variant by variant.
pub open spec fn variants_dependencies(variants: Seq<EnumVariantView>) -> Seq<Seq<char>>
    decreases variants.len(),
{
    if variants.len() == 0 {
        Seq::empty()
    } else {
        variants_dependencies(variants.drop_last()) + match variants.last().fields {
            Some(fields) => fields_dependencies(fields),
            None => Seq::empty(),
        }
    }
}

/// One declared type as the resolver sees it: its fully-qualified path, its
/// module, and the paths it refers to.
pub struct TypeNode {
    pub path: String,
    pub module: String,
    pub dependencies: Vec<String>,
}

/// The mathematical value of a [`TypeNode`].
pub struct TypeNodeView {
    pub path: Seq<char>,
    pub module: Seq<char>,
    pub dependencies: Seq<Seq<char>>,
}

impl View for TypeNode {
    type V = TypeNodeView;

    open spec fn view(&self) -> TypeNodeView {
        TypeNodeView {
            path: self.path@,
            module: self.module@,
            dependencies: self.dependencies.deep_view(),
        }
    }
}

impl DeepView for TypeNode {
    type V = TypeNodeView;

    open spec fn deep_view(&self) -> TypeNodeView {
        self.view()
    }
}

/// The node of a struct.
pub open spec fn struct_node(info: StructInfoView) -> TypeNodeView {
    TypeNodeView {
        path: full_path(info.module, info.name),
        module: info.module,
        dependencies: fields_dependencies(info.fields),
    }
}

/// The node of an enum.
pub open spec fn enum_node(info: EnumInfoView) -> TypeNodeView {
    TypeNodeView {
        path: full_path(info.module, info.name),
        module: info.module,
        dependencies: variants_dependencies(info.variants),
    }
}

/// The nodes of all declared types: the structs in their order, then the
/// enums in theirs.
pub open spec fn type_nodes(structs: Seq<StructInfoView>, enums: Seq<EnumInfoView>) -> Seq<
    TypeNodeView,
> {
    structs.map_values(|s: StructInfoView| struct_node(s)) + enums.map_values(
        |e: EnumInfoView| enum_node(e),
    )
}

/// The position of the first node whose path also belongs to a node before
/// it, looking from position `from` on.
pub open spec fn first_duplicate_from(nodes: Seq<TypeNodeView>, from: int) -> Option<int>
    decreases nodes.len() - from,
{
    if from < 0 || from >= nodes.len() {
        None
    } else if exists|i: int| 0 <= i < from && nodes[i].path == nodes[from].path {
        Some(from)
    } else {
        first_duplicate_from(nodes, from + 1)
    }
}

/// The position of the first node that repeats the path of an earlier one.
pub open spec fn first_duplicate(nodes: Seq<TypeNodeView>) -> Option<int> {
    first_duplicate_from(nodes, 0)
}

/// No two nodes share a path.
pub open spec fn distinct_paths(nodes: Seq<TypeNodeView>) -> bool {
    forall|i: int, j: int| 0 <= i < j < nodes.len() ==> nodes[i].path != nodes[j].path
}

/// Where no node from `from` on repeats an earlier path, the paths of the
/// nodes from `from` on differ from all paths before them.
proof fn lemma_first_duplicate_from(nodes: Seq<TypeNodeView>, from: int)
    requires
        0 <= from,
        first_duplicate_from(nodes, from) is None,
    ensures
        forall|i: int, j: int| 0 <= i < j < nodes.len() && from <= j ==> nodes[i].path != nodes[j].path,
    decreases nodes.len() - from,
{
    if from < nodes.len() {
        lemma_first_duplicate_from(nodes, from + 1);
    }
}

/// Where no node repeats an earlier path, all paths differ.
pub proof fn lemma_no_duplicate(nodes: Seq<TypeNodeView>)
    requires
        first_duplicate(nodes) is None,
    ensures
        distinct_paths(nodes),
{
    lemma_first_duplicate_from(nodes, 0);
}

/// Node `j` is declared under a path that node `i` refers to: `j` is a
/// dependency of `i`.
pub open spec fn depends_on(nodes: Seq<TypeNodeView>, i: int, j: int) -> bool {
    &&& 0 <= i < nodes.len()
    &&& 0 <= j < nodes.len()
    &&& nodes[i].dependencies.contains(nodes[j].path)
}

/// Node `i` has not been placed in `done`, and every node it depends on has.
pub open spec fn is_ready(nodes: Seq<TypeNodeView>, done: Seq<int>, i: int) -> bool {
    &&& 0 <= i < nodes.len()
    &&& !done.contains(i)
    &&& forall|j: int| depends_on(nodes, i, j) ==> done.contains(j)
}

/// Node `i` is the ready node whose path sorts first.
pub open spec fn is_next(nodes: Seq<TypeNodeView>, done: Seq<int>, i: int) -> bool {
    &&& is_ready(nodes, done, i)
    &&& forall|k: int| is_ready(nodes, done, k) ==> lex_le(nodes[i].path, nodes[k].path)
}

/// The node to place after `done`, if any node is ready.
pub open spec fn next_node(nodes: Seq<TypeNodeView>, done: Seq<int>) -> Option<int> {
    if exists|i: int| is_next(nodes, done, i) {
        Some(choose|i: int| is_next(nodes, done, i))
    } else {
        None
    }
}

/// How many of the nodes `0..n` do not occur in `done`.
pub open spec fn missing(n: int, done: Seq<int>) -> nat
    decreases n,
{
    if n <= 0 {
        0
    } else {
        missing(n - 1, done) + if done.contains(n - 1) {
            0nat
        } else {
            1nat
        }
    }
}

/// Placing a node that was missing leaves one fewer missing.
pub proof fn lemma_missing_push(n: int, done: Seq<int>, i: int)
    requires
        0 <= i < n,
        !done.contains(i),
    ensures
        missing(n, done.push(i)) + 1 == missing(n, done),
    decreases n,
{
    let after = done.push(i);
    assert forall|k: int| k != i implies after.contains(k) == done.contains(k) by {
        if done.contains(k) {
            let p = choose|p: int| 0 <= p < done.len() && done[p] == k;
            assert(after[p] == k);
        }
    }
    assert(after[done.len() as int] == i);
    if i == n - 1 {
        lemma_missing_same(n - 1, done, i);
    } else {
        lemma_missing_push(n - 1, done, i);
    }
}

/// Placing a node beyond the first `n` leaves the number missing among
/// those as it is.
proof fn lemma_missing_same(n: int, done: Seq<int>, i: int)
    requires
        n <= i,
    ensures
        missing(n, done.push(i)) == missing(n, done),
    decreases n,
{
    if n > 0 {
        let after = done.push(i);
        if done.contains(n - 1) {
            let p = choose|p: int| 0 <= p < done.len() && done[p] == n - 1;
            assert(after[p] == n - 1);
        }
        lemma_missing_same(n - 1, done, i);
    }
}

/// The order in which the nodes are placed, starting from `done`: as long
/// as some node is ready, the ready node whose path sorts first comes next.
pub open spec fn emit_from(nodes: Seq<TypeNodeView>, done: Seq<int>) -> Seq<int>
    decreases missing(nodes.len() as int, done),
{
    match next_node(nodes, done) {
        Some(i) => {
            proof {
                lemma_missing_push(nodes.len() as int, done, i);
            }
            emit_from(nodes, done.push(i))
        },
        None => done,
    }
}

/// The emission order of the nodes, as far as it gets: every node appears
/// after the nodes it depends on, and among the nodes that could come next
/// the one whose path sorts first does.
pub open spec fn emission(nodes: Seq<TypeNodeView>) -> Seq<int> {
    emit_from(nodes, Seq::empty())
}

/// Every node occurs in `order`.
pub open spec fn is_complete(nodes: Seq<TypeNodeView>, order: Seq<int>) -> bool {
    forall|i: int| 0 <= i < nodes.len() ==> order.contains(i)
}

/// The first of the nodes `from..` that does not occur in `order`.
pub open spec fn first_missing_from(nodes: Seq<TypeNodeView>, order: Seq<int>, from: int) -> int
    decreases nodes.len() - from,
{
    if from < 0 || from >= nodes.len() || !order.contains(from) {
        from
    } else {
        first_missing_from(nodes, order, from + 1)
    }
}

/// The first of the nodes `from..` that node `c` depends on and that does
/// not occur in `done`; the number of nodes where there is none.
pub open spec fn first_blocking(nodes: Seq<TypeNodeView>, done: Seq<int>, c: int, from: int) -> int
    decreases nodes.len() - from,
{
    if from < 0 || from >= nodes.len() {
        from
    } else if depends_on(nodes, c, from) && !done.contains(from) {
        from
    } else {
        first_blocking(nodes, done, c, from + 1)
    }
}

/// Where the walk `walk` ends: from its last node it goes on to the first
/// node that this one waits for, until it comes to a node that it has
/// already passed.
pub open spec fn cycle_walk(nodes: Seq<TypeNodeView>, done: Seq<int>, walk: Seq<int>) -> int
    decreases missing(nodes.len() as int, walk),
{
    if walk.len() == 0 {
        0
    } else {
        let next = first_blocking(nodes, done, walk.last(), 0);
        if 0 <= next < nodes.len() && !walk.contains(next) {
            proof {
                lemma_missing_push(nodes.len() as int, walk, next);
            }
            cycle_walk(nodes, done, walk.push(next))
        } else {
            next
        }
    }
}

/// A node that keeps the emission from going on after `done`: where the
/// walk from the first node that is left out ends.
pub open spec fn cycle_member(nodes: Seq<TypeNodeView>, done: Seq<int>) -> int {
    cycle_walk(nodes, done, seq![first_missing_from(nodes, done, 0)])
}

/// Each node of `cycle` depends on the one after it, and the last on the
/// first.
pub open spec fn is_dependency_cycle(nodes: Seq<TypeNodeView>, cycle: Seq<int>) -> bool {
    &&& cycle.len() > 0
    &&& forall|k: int|
        0 <= k < cycle.len() - 1 ==> depends_on(nodes, #[trigger] cycle[k], cycle[k + 1])
    &&& depends_on(nodes, cycle.last(), cycle[0])
}

/// Node `member` lies on a cycle of dependencies.
pub open spec fn on_cycle(nodes: Seq<TypeNodeView>, member: int) -> bool {
    exists|cycle: Seq<int>| is_dependency_cycle(nodes, cycle) && cycle[0] == member
}

/// `order` holds every node, and each node only after every node it depends
/// on.
pub open spec fn is_topological_order(nodes: Seq<TypeNodeView>, order: Seq<int>) -> bool {
    &&& is_complete(nodes, order)
    &&& forall|a: int, b: int|
        0 <= a < order.len() && 0 <= b < order.len() && depends_on(nodes, order[b], order[a]) ==> a
            < b
}


/// Every node of `order` was ready when it was placed.
pub open spec fn placed_when_ready(nodes: Seq<TypeNodeView>, order: Seq<int>) -> bool {
    forall|p: int| 0 <= p < order.len() ==> is_ready(nodes, order.take(p), #[trigger] order[p])
}

/// Placing a ready node keeps the order one of nodes placed when ready.
proof fn lemma_place(nodes: Seq<TypeNodeView>, done: Seq<int>, i: int)
    requires
        placed_when_ready(nodes, done),
        is_ready(nodes, done, i),
    ensures
        placed_when_ready(nodes, done.push(i)),
{
    let after = done.push(i);
    assert forall|p: int| 0 <= p < after.len() implies is_ready(
        nodes,
        after.take(p),
        #[trigger] after[p],
    ) by {
        if p < done.len() {
            assert(after.take(p) =~= done.take(p));
        } else {
            assert(after.take(p) =~= done);
        }
    }
}

/// The emission from `done` on keeps the nodes placed when ready, and stops
/// only where no node is ready to come next.
proof fn lemma_emit_from(nodes: Seq<TypeNodeView>, done: Seq<int>)
    requires
        placed_when_ready(nodes, done),
    ensures
        placed_when_ready(nodes, emit_from(nodes, done)),
        next_node(nodes, emit_from(nodes, done)) is None,
    decreases missing(nodes.len() as int, done),
{
    match next_node(nodes, done) {
        Some(i) => {
            lemma_missing_push(nodes.len() as int, done, i);
            lemma_place(nodes, done, i);
            lemma_emit_from(nodes, done.push(i));
        },
        None => {},
    }
}

/// An order of nodes placed when ready that holds every node is
/// topological.
proof fn lemma_topological(nodes: Seq<TypeNodeView>, order: Seq<int>)
    requires
        placed_when_ready(nodes, order),
        is_complete(nodes, order),
    ensures
        is_topological_order(nodes, order),
{
    assert forall|a: int, b: int|
        0 <= a < order.len() && 0 <= b < order.len() && depends_on(
            nodes,
            order[b],
            order[a],
        ) implies a < b by {
        assert(order.take(b).contains(order[a]));
    }
}

/// Among the ready nodes below `bound`, one has the path that sorts first.
proof fn lemma_least_ready(nodes: Seq<TypeNodeView>, done: Seq<int>, bound: int) -> (least: int)
    requires
        0 <= bound <= nodes.len(),
        exists|i: int| 0 <= i < bound && is_ready(nodes, done, i),
    ensures
        0 <= least < bound,
        is_ready(nodes, done, least),
        forall|k: int|
            0 <= k < bound && is_ready(nodes, done, k) ==> lex_le(nodes[least].path, nodes[k].path),
    decreases bound,
{
    let top = bound - 1;
    if exists|i: int| 0 <= i < top && is_ready(nodes, done, i) {
        let before = lemma_least_ready(nodes, done, top);
        if is_ready(nodes, done, top) && lex_lt(nodes[top].path, nodes[before].path) {
            assert forall|k: int| 0 <= k < bound && is_ready(nodes, done, k) implies lex_le(
                nodes[top].path,
                nodes[k].path,
            ) by {
                if k == top {
                    lemma_lex_irreflexive(nodes[top].path);
                } else if lex_lt(nodes[k].path, nodes[top].path) {
                    lemma_lex_transitive(nodes[k].path, nodes[top].path, nodes[before].path);
                }
            }
            top
        } else {
            before
        }
    } else {
        lemma_lex_irreflexive(nodes[top].path);
        top
    }
}

/// The first position at or before `bound` of `order` that holds a node
/// which is not in `done`.
proof fn lemma_first_unplaced(nodes: Seq<TypeNodeView>, done: Seq<int>, order: Seq<int>, bound: int) -> (first: int)
    requires
        0 <= bound < order.len(),
        0 <= order[bound] < nodes.len(),
        !done.contains(order[bound]),
    ensures
        0 <= first <= bound,
        0 <= order[first] < nodes.len(),
        !done.contains(order[first]),
        forall|b: int|
            0 <= b < first ==> !(0 <= order[b] < nodes.len() && !done.contains(order[b])),
    decreases bound,
{
    if exists|b: int| 0 <= b < bound && 0 <= order[b] < nodes.len() && !done.contains(order[b]) {
        let b = choose|b: int|
            0 <= b < bound && 0 <= order[b] < nodes.len() && !done.contains(order[b]);
        lemma_first_unplaced(nodes, done, order, b)
    } else {
        bound
    }
}

/// Where some node is still to be placed and none is ready, the nodes have
/// no topological order.
proof fn lemma_stuck(nodes: Seq<TypeNodeView>, done: Seq<int>, order: Seq<int>)
    requires
        next_node(nodes, done) is None,
        !is_complete(nodes, done),
    ensures
        !is_topological_order(nodes, order),
{
    if is_topological_order(nodes, order) {
        let unplaced = choose|u: int| 0 <= u < nodes.len() && !done.contains(u);
        assert(order.contains(unplaced));
        let at = choose|p: int| 0 <= p < order.len() && order[p] == unplaced;
        let first = lemma_first_unplaced(nodes, done, order, at);
        let node = order[first];
        if is_ready(nodes, done, node) {
            let least = lemma_least_ready(nodes, done, nodes.len() as int);
            assert(is_next(nodes, done, least));
        }
        let dependency = choose|j: int| depends_on(nodes, node, j) && !done.contains(j);
        assert(order.contains(dependency));
    }
}

/// Where all paths differ, at most one node can come next.
proof fn lemma_next_unique(nodes: Seq<TypeNodeView>, done: Seq<int>, i: int, k: int)
    requires
        distinct_paths(nodes),
        is_next(nodes, done, i),
        is_next(nodes, done, k),
    ensures
        i == k,
{
    lemma_lex_total(nodes[i].path, nodes[k].path);
}

/// A complete emission is a topological order, and an incomplete one shows
/// that there is none.
pub proof fn lemma_emission(nodes: Seq<TypeNodeView>, order: Seq<int>)
    ensures
        is_complete(nodes, emission(nodes)) ==> is_topological_order(nodes, emission(nodes)),
        !is_complete(nodes, emission(nodes)) ==> !is_topological_order(nodes, order),
{
    let empty = Seq::<int>::empty();
    lemma_emit_from(nodes, empty);
    if is_complete(nodes, emission(nodes)) {
        lemma_topological(nodes, emission(nodes));
    } else {
        lemma_stuck(nodes, emission(nodes), order);
    }
}


/// Appends the paths that the fields `fields` refer to.
fn collect_fields_dependencies(fields: &Vec<FieldInfo>, deps: &mut Vec<String>)
    ensures
        final(deps).deep_view() == old(deps).deep_view() + fields_dependencies(fields.deep_view()),
{
    let ghost all = fields.deep_view();
    let ghost start = deps.deep_view();
    let mut i: usize = 0;
    while i < fields.len()
        invariant
            i <= fields@.len(),
            all == fields.deep_view(),
            deps.deep_view() == start + fields_dependencies(all.take(i as int)),
        decreases fields@.len() - i,
    {
        assert(all.take(i + 1).drop_last() =~= all.take(i as int));
        DependencyResolver::collect_type_dependencies(&fields[i].type_kind, deps);
        i += 1;
    }
    assert(all.take(fields@.len() as int) =~= all);
}

/// The node of a struct.
fn make_struct_node(info: &StructInfo) -> (node: TypeNode)
    ensures
        node@ == struct_node(info@),
{
    let mut dependencies: Vec<String> = Vec::new();
    collect_fields_dependencies(&info.fields, &mut dependencies);
    TypeNode {
        path: make_full_path(info.module.as_str(), info.name.as_str()),
        module: info.module.clone(),
        dependencies,
    }
}

/// The node of an enum.
fn make_enum_node(info: &EnumInfo) -> (node: TypeNode)
    ensures
        node@ == enum_node(info@),
{
    let ghost all = info.variants.deep_view();
    let mut dependencies: Vec<String> = Vec::new();
    let mut i: usize = 0;
    while i < info.variants.len()
        invariant
            i <= info.variants@.len(),
            all == info.variants.deep_view(),
            dependencies.deep_view() == variants_dependencies(all.take(i as int)),
        decreases info.variants@.len() - i,
    {
        assert(all.take(i + 1).drop_last() =~= all.take(i as int));
        match &info.variants[i].fields {
            Some(fields) => {
                collect_fields_dependencies(fields, &mut dependencies);
            },
            None => {},
        }
        i += 1;
    }
    assert(all.take(info.variants@.len() as int) =~= all);
    TypeNode {
        path: make_full_path(info.module.as_str(), info.name.as_str()),
        module: info.module.clone(),
        dependencies,
    }
}

/// The nodes of all declared types: structs first, then enums.
pub fn build_nodes(structs: &Vec<StructInfo>, enums: &Vec<EnumInfo>) -> (nodes: Vec<TypeNode>)
    ensures
        nodes.deep_view() == type_nodes(structs.deep_view(), enums.deep_view()),
{
    let mut nodes: Vec<TypeNode> = Vec::new();
    let mut i: usize = 0;
    while i < structs.len()
        invariant
            i <= structs@.len(),
            nodes@.len() == i,
            forall|k: int| 0 <= k < i ==> nodes@[k]@ == struct_node(structs@[k]@),
        decreases structs@.len() - i,
    {
        nodes.push(make_struct_node(&structs[i]));
        i += 1;
    }
    let mut j: usize = 0;
    while j < enums.len()
        invariant
            j <= enums@.len(),
            i == structs@.len(),
            nodes@.len() == i + j,
            forall|k: int| 0 <= k < i ==> nodes@[k]@ == struct_node(structs@[k]@),
            forall|k: int| 0 <= k < j ==> nodes@[i + k]@ == enum_node(enums@[k]@),
        decreases enums@.len() - j,
    {
        nodes.push(make_enum_node(&enums[j]));
        j += 1;
    }
    nodes
}

/// Whether `path` is among `paths`.
fn contains_path(paths: &Vec<String>, path: &str) -> (r: bool)
    ensures
        r == paths.deep_view().contains(path@),
{
    let ghost all = paths.deep_view();
    let mut i: usize = 0;
    while i < paths.len()
        invariant
            i <= paths@.len(),
            all == paths.deep_view(),
            forall|k: int| 0 <= k < i ==> all[k] != path@,
        decreases paths@.len() - i,
    {
        if str_eq(paths[i].as_str(), path) {
            assert(all[i as int] == path@);
            return true;
        }
        i += 1;
    }
    false
}

/// The position of the first node that repeats the path of an earlier one.
pub fn find_duplicate(nodes: &Vec<TypeNode>) -> (r: Option<usize>)
    ensures
        match r {
            Some(j) => first_duplicate(nodes.deep_view()) == Some(j as int) && j < nodes@.len(),
            None => first_duplicate(nodes.deep_view()) is None,
        },
{
    let ghost all = nodes.deep_view();
    let mut j: usize = 0;
    while j < nodes.len()
        invariant
            j <= nodes@.len(),
            all == nodes.deep_view(),
            first_duplicate(all) == first_duplicate_from(all, j as int),
        decreases nodes@.len() - j,
    {
        let mut i: usize = 0;
        while i < j
            invariant
                i <= j < nodes@.len(),
                all == nodes.deep_view(),
                first_duplicate(all) == first_duplicate_from(all, j as int),
                forall|k: int| 0 <= k < i ==> all[k].path != all[j as int].path,
            decreases j - i,
        {
            if str_eq(nodes[i].path.as_str(), nodes[j].path.as_str()) {
                assert(all[i as int].path == all[j as int].path);
                return Some(j);
            }
            i += 1;
        }
        j += 1;
    }
    None
}

/// The positions that a list of machine integers holds.
pub open spec fn indices(order: Seq<usize>) -> Seq<int> {
    order.map_values(|i: usize| i as int)
}

/// Position `j` is in `list`.
pub open spec fn edge_listed(list: Seq<usize>, j: int) -> bool {
    exists|k: int| 0 <= k < list.len() && list[k] as int == j
}

/// `edges[i]` lists exactly the nodes that node `i` depends on.
pub open spec fn edges_match(nodes: Seq<TypeNodeView>, edges: Seq<Vec<usize>>) -> bool {
    &&& edges.len() == nodes.len()
    &&& forall|i: int, k: int|
        0 <= i < edges.len() && 0 <= k < edges[i]@.len() ==> depends_on(
            nodes,
            i,
            #[trigger] edges[i]@[k] as int,
        )
    &&& forall|i: int, j: int| #[trigger] depends_on(nodes, i, j) ==> edge_listed(edges[i]@, j)
}

/// `placed[i]` tells whether node `i` is in `done`.
pub open spec fn flags_match(placed: Seq<bool>, done: Seq<int>, n: int) -> bool {
    &&& placed.len() == n
    &&& forall|i: int| 0 <= i < n ==> (placed[i] <==> done.contains(i))
}

/// For each node, the positions of the nodes it depends on.
fn dependency_positions(nodes: &Vec<TypeNode>) -> (edges: Vec<Vec<usize>>)
    ensures
        edges_match(nodes.deep_view(), edges@),
{
    let ghost all = nodes.deep_view();
    let n: usize = nodes.len();
    let mut edges: Vec<Vec<usize>> = Vec::new();
    let mut i: usize = 0;
    while i < n
        invariant
            i <= n,
            n == nodes@.len(),
            all == nodes.deep_view(),
            edges@.len() == i,
            forall|a: int, k: int|
                0 <= a < i && 0 <= k < edges@[a]@.len() ==> depends_on(
                    all,
                    a,
                    #[trigger] edges@[a]@[k] as int,
                ),
            forall|a: int, j: int|
                0 <= a < i && #[trigger] depends_on(all, a, j) ==> edge_listed(edges@[a]@, j),
        decreases n - i,
    {
        let mut list: Vec<usize> = Vec::new();
        let mut j: usize = 0;
        while j < n
            invariant
                j <= n,
                i < n,
                n == nodes@.len(),
                all == nodes.deep_view(),
                forall|k: int| 0 <= k < list@.len() ==> depends_on(all, i as int, #[trigger] list@[k] as int),
                forall|b: int| 0 <= b < j && depends_on(all, i as int, b) ==> edge_listed(list@, b),
            decreases n - j,
        {
            if contains_path(&nodes[i].dependencies, nodes[j].path.as_str()) {
                let ghost before = list@;
                list.push(j);
                assert(list@[before.len() as int] == j);
                assert forall|b: int| 0 <= b <= j && depends_on(all, i as int, b) implies edge_listed(
                    list@,
                    b,
                ) by {
                    if b < j {
                        let k = choose|k: int| 0 <= k < before.len() && before[k] as int == b;
                        assert(list@[k] as int == b);
                    }
                }
            }
            j += 1;
        }
        edges.push(list);
        i += 1;
    }
    edges
}

/// Whether every node listed in `list` has been placed.
fn all_placed(list: &Vec<usize>, placed: &Vec<bool>) -> (r: bool)
    requires
        forall|k: int| 0 <= k < list@.len() ==> list@[k] < placed@.len(),
    ensures
        r == (forall|k: int| 0 <= k < list@.len() ==> placed@[list@[k] as int]),
{
    let mut k: usize = 0;
    while k < list.len()
        invariant
            k <= list@.len(),
            forall|a: int| 0 <= a < list@.len() ==> list@[a] < placed@.len(),
            forall|a: int| 0 <= a < k ==> placed@[list@[a] as int],
        decreases list@.len() - k,
    {
        if !placed[list[k]] {
            return false;
        }
        k += 1;
    }
    true
}

/// The node that comes next after `order`: the ready node whose path sorts
/// first.
fn find_next(
    nodes: &Vec<TypeNode>,
    edges: &Vec<Vec<usize>>,
    placed: &Vec<bool>,
    order: &Vec<usize>,
) -> (r: Option<usize>)
    requires
        edges_match(nodes.deep_view(), edges@),
        flags_match(placed@, indices(order@), nodes@.len() as int),
    ensures
        match r {
            Some(b) => b < nodes@.len() && is_next(nodes.deep_view(), indices(order@), b as int),
            None => forall|i: int| !is_ready(nodes.deep_view(), indices(order@), i),
        },
{
    let ghost all = nodes.deep_view();
    let ghost done = indices(order@);
    let n: usize = nodes.len();
    let mut best: Option<usize> = None;
    let mut i: usize = 0;
    while i < n
        invariant
            i <= n,
            n == nodes@.len(),
            all == nodes.deep_view(),
            done == indices(order@),
            edges_match(all, edges@),
            flags_match(placed@, done, n as int),
            match best {
                Some(b) => b < i && is_ready(all, done, b as int) && forall|k: int|
                    0 <= k < i && is_ready(all, done, k) ==> lex_le(all[b as int].path, all[k].path),
                None => forall|k: int| 0 <= k < i ==> !is_ready(all, done, k),
            },
        decreases n - i,
    {
        let ready = !placed[i] && all_placed(&edges[i], placed);
        if ready {
            match best {
                Some(b) => {
                    if str_lt(nodes[i].path.as_str(), nodes[b].path.as_str()) {
                        proof {
                            assert forall|k: int|
                                0 <= k <= i && is_ready(all, done, k) implies lex_le(
                                all[i as int].path,
                                all[k].path,
                            ) by {
                                if k == i {
                                    lemma_lex_irreflexive(all[i as int].path);
                                } else if lex_lt(all[k].path, all[i as int].path) {
                                    lemma_lex_transitive(
                                        all[k].path,
                                        all[i as int].path,
                                        all[b as int].path,
                                    );
                                }
                            }
                        }
                        best = Some(i);
                    }
                },
                None => {
                    proof {
                        lemma_lex_irreflexive(all[i as int].path);
                    }
                    best = Some(i);
                },
            }
        }
        i += 1;
    }
    best
}

/// The first node that `placed` does not mark.
fn first_unplaced(nodes: &Vec<TypeNode>, placed: &Vec<bool>, order: &Vec<usize>) -> (r: Option<usize>)
    requires
        flags_match(placed@, indices(order@), nodes@.len() as int),
    ensures
        match r {
            Some(u) => u < nodes@.len() && !placed@[u as int] && !is_complete(
                nodes.deep_view(),
                indices(order@),
            ) && u == first_missing_from(nodes.deep_view(), indices(order@), 0),
            None => is_complete(nodes.deep_view(), indices(order@)),
        },
{
    let ghost all = nodes.deep_view();
    let ghost done = indices(order@);
    let mut i: usize = 0;
    while i < placed.len()
        invariant
            i <= placed@.len(),
            all == nodes.deep_view(),
            done == indices(order@),
            flags_match(placed@, done, nodes@.len() as int),
            forall|k: int| 0 <= k < i ==> done.contains(k),
            first_missing_from(all, done, 0) == first_missing_from(all, done, i as int),
        decreases placed@.len() - i,
    {
        if !placed[i] {
            return Some(i);
        }
        i += 1;
    }
    None
}

/// Where some node from `from` on blocks node `c`, the first one that does
/// is found.
proof fn lemma_first_blocking(nodes: Seq<TypeNodeView>, done: Seq<int>, c: int, from: int)
    requires
        0 <= from,
        exists|j: int| from <= j && depends_on(nodes, c, j) && !done.contains(j),
    ensures
        from <= first_blocking(nodes, done, c, from) < nodes.len(),
        depends_on(nodes, c, first_blocking(nodes, done, c, from)),
        !done.contains(first_blocking(nodes, done, c, from)),
    decreases nodes.len() - from,
{
    if !(depends_on(nodes, c, from) && !done.contains(from)) {
        lemma_first_blocking(nodes, done, c, from + 1);
    }
}

/// The walk `walk` is one along dependencies, through nodes that are not in
/// `done`.
pub open spec fn is_blocked_walk(nodes: Seq<TypeNodeView>, done: Seq<int>, walk: Seq<int>) -> bool {
    &&& walk.len() > 0
    &&& forall|k: int| 0 <= k < walk.len() ==> 0 <= #[trigger] walk[k] < nodes.len() && !done.contains(
        walk[k],
    )
    &&& forall|k: int|
        0 <= k < walk.len() - 1 ==> depends_on(nodes, #[trigger] walk[k], walk[k + 1])
}

/// Where no node is ready, a walk along dependencies through nodes that
/// are left out ends at a node on a cycle of dependencies.
proof fn lemma_cycle_walk(nodes: Seq<TypeNodeView>, done: Seq<int>, walk: Seq<int>)
    requires
        is_blocked_walk(nodes, done, walk),
        forall|i: int| !is_ready(nodes, done, i),
    ensures
        0 <= cycle_walk(nodes, done, walk) < nodes.len(),
        !done.contains(cycle_walk(nodes, done, walk)),
        on_cycle(nodes, cycle_walk(nodes, done, walk)),
    decreases missing(nodes.len() as int, walk),
{
    let last = walk.last();
    assert(!is_ready(nodes, done, last));
    lemma_first_blocking(nodes, done, last, 0);
    let next = first_blocking(nodes, done, last, 0);
    if !walk.contains(next) {
        let longer = walk.push(next);
        lemma_missing_push(nodes.len() as int, walk, next);
        lemma_cycle_walk(nodes, done, longer);
    } else {
        let at = choose|q: int| 0 <= q < walk.len() && walk[q] == next;
        let cycle = walk.skip(at);
        assert(is_dependency_cycle(nodes, cycle) && cycle[0] == next);
    }
}

/// Whether `j` is in `list`.
fn list_has(list: &Vec<usize>, j: usize) -> (r: bool)
    ensures
        r == edge_listed(list@, j as int),
{
    let mut k: usize = 0;
    while k < list.len()
        invariant
            k <= list@.len(),
            forall|a: int| 0 <= a < k ==> list@[a] != j,
        decreases list@.len() - k,
    {
        if list[k] == j {
            return true;
        }
        k += 1;
    }
    false
}

/// The first node that node `c` waits for; the number of nodes where it
/// waits for none.
fn blocking_dependency(
    nodes: &Vec<TypeNode>,
    edges: &Vec<Vec<usize>>,
    placed: &Vec<bool>,
    order: &Vec<usize>,
    c: usize,
) -> (r: usize)
    requires
        edges_match(nodes.deep_view(), edges@),
        flags_match(placed@, indices(order@), nodes@.len() as int),
        c < nodes@.len(),
    ensures
        r == first_blocking(nodes.deep_view(), indices(order@), c as int, 0),
        r <= nodes@.len(),
{
    let ghost all = nodes.deep_view();
    let ghost done = indices(order@);
    let n: usize = nodes.len();
    let mut j: usize = 0;
    while j < n
        invariant
            j <= n,
            c < n,
            n == nodes@.len(),
            all == nodes.deep_view(),
            done == indices(order@),
            edges_match(all, edges@),
            flags_match(placed@, done, n as int),
            first_blocking(all, done, c as int, 0) == first_blocking(all, done, c as int, j as int),
        decreases n - j,
    {
        if !placed[j] {
            let listed = list_has(&edges[c], j);
            if listed {
                return j;
            }
        }
        j += 1;
    }
    n
}

/// Walks from `start` along the dependencies that are still to be placed,
/// up to the first node that the walk has passed before.
fn find_cycle_member(
    nodes: &Vec<TypeNode>,
    edges: &Vec<Vec<usize>>,
    placed: &Vec<bool>,
    order: &Vec<usize>,
    start: usize,
) -> (r: usize)
    requires
        edges_match(nodes.deep_view(), edges@),
        flags_match(placed@, indices(order@), nodes@.len() as int),
        start < nodes@.len(),
        !placed@[start as int],
        forall|i: int| !is_ready(nodes.deep_view(), indices(order@), i),
    ensures
        r < nodes@.len(),
        r == cycle_walk(nodes.deep_view(), indices(order@), seq![start as int]),
{
    let ghost all = nodes.deep_view();
    let ghost done = indices(order@);
    let n: usize = nodes.len();
    let mut passed: Vec<bool> = Vec::new();
    let mut i: usize = 0;
    while i < n
        invariant
            i <= n,
            passed@.len() == i,
            forall|k: int| 0 <= k < i ==> !passed@[k],
        decreases n - i,
    {
        passed.push(false);
        i += 1;
    }
    passed.set(start, true);
    let ghost mut walk: Seq<int> = seq![start as int];
    let mut current: usize = start;
    proof {
        assert forall|k: int| 0 <= k < n implies (passed@[k] <==> walk.contains(k)) by {
            if k == start {
                assert(walk[0] == k);
            }
        }
    }
    loop
        invariant
            n == nodes@.len(),
            all == nodes.deep_view(),
            done == indices(order@),
            edges_match(all, edges@),
            flags_match(placed@, done, n as int),
            forall|i: int| !is_ready(all, done, i),
            flags_match(passed@, walk, n as int),
            is_blocked_walk(all, done, walk),
            walk.last() == current,
            current < n,
            cycle_walk(all, done, walk) == cycle_walk(all, done, seq![start as int]),
        decreases missing(n as int, walk),
    {
        let next = blocking_dependency(nodes, edges, placed, order, current);
        proof {
            assert(!is_ready(all, done, current as int));
            lemma_first_blocking(all, done, current as int, 0);
        }
        if passed[next] {
            return next;
        }
        passed.set(next, true);
        proof {
            let longer = walk.push(next as int);
            lemma_missing_push(n as int, walk, next as int);
            assert forall|k: int| 0 <= k < n implies (passed@[k] <==> longer.contains(k)) by {
                if k == next {
                    assert(longer[walk.len() as int] == k);
                } else {
                    if walk.contains(k) {
                        let q = choose|q: int| 0 <= q < walk.len() && walk[q] == k;
                        assert(longer[q] == k);
                    }
                }
            }
            walk = longer;
        }
        current = next;
    }
}

/// Places the nodes in emission order, as far as it gets. Returns the order
/// and, where it is incomplete, a node on a cycle of dependencies.
fn emit_nodes(nodes: &Vec<TypeNode>) -> (r: (Vec<usize>, Option<usize>))
    requires
        distinct_paths(nodes.deep_view()),
    ensures
        indices(r.0@) == emission(nodes.deep_view()),
        forall|k: int| 0 <= k < r.0@.len() ==> r.0@[k] < nodes@.len(),
        match r.1 {
            Some(m) => m < nodes@.len() && !is_complete(nodes.deep_view(), emission(nodes.deep_view()))
                && m == cycle_member(nodes.deep_view(), emission(nodes.deep_view())),
            None => is_complete(nodes.deep_view(), emission(nodes.deep_view())),
        },
{
    let ghost all = nodes.deep_view();
    let n: usize = nodes.len();
    let edges = dependency_positions(nodes);
    let mut placed: Vec<bool> = Vec::new();
    let mut i: usize = 0;
    while i < n
        invariant
            i <= n,
            placed@.len() == i,
            forall|k: int| 0 <= k < i ==> !placed@[k],
        decreases n - i,
    {
        placed.push(false);
        i += 1;
    }
    let mut order: Vec<usize> = Vec::new();
    assert(indices(order@) =~= Seq::<int>::empty());
    loop
        invariant
            n == nodes@.len(),
            all == nodes.deep_view(),
            distinct_paths(all),
            edges_match(all, edges@),
            flags_match(placed@, indices(order@), n as int),
            forall|k: int| 0 <= k < order@.len() ==> order@[k] < n,
            emit_from(all, indices(order@)) == emission(all),
        decreases missing(n as int, indices(order@)),
    {
        let ghost done = indices(order@);
        match find_next(nodes, &edges, &placed, &order) {
            Some(b) => {
                proof {
                    let chosen = choose|i: int| is_next(all, done, i);
                    lemma_next_unique(all, done, b as int, chosen);
                    lemma_missing_push(n as int, done, b as int);
                }
                placed.set(b, true);
                order.push(b);
                proof {
                    let after = indices(order@);
                    assert(after =~= done.push(b as int));
                    assert forall|i: int| 0 <= i < n implies (placed@[i] <==> after.contains(i)) by {
                        if i == b {
                            assert(after[done.len() as int] == b);
                        } else {
                            if done.contains(i) {
                                let p = choose|p: int| 0 <= p < done.len() && done[p] == i;
                                assert(after[p] == i);
                            }
                        }
                    }
                }
            },
            None => {
                let member = match first_unplaced(nodes, &placed, &order) {
                    Some(start) => Some(find_cycle_member(nodes, &edges, &placed, &order, start)),
                    None => None,
                };
                return (order, member);
            },
        }
    }
}

/// The names that are imported from one module.
#[derive(Debug, PartialEq, Eq)]
pub struct ImportSource {
    /// The module that the names are imported from.
    pub module: String,
    /// The type names imported from it, in the order in which they were
    /// first needed.
    pub type_names: Vec<String>,
}

/// The mathematical value of an [`ImportSource`].
pub struct ImportSourceView {
    pub module: Seq<char>,
    pub type_names: Seq<Seq<char>>,
}

impl View for ImportSource {
    type V = ImportSourceView;

    open spec fn view(&self) -> ImportSourceView {
        ImportSourceView { module: self.module@, type_names: self.type_names.deep_view() }
    }
}

impl DeepView for ImportSource {
    type V = ImportSourceView;

    open spec fn deep_view(&self) -> ImportSourceView {
        self.view()
    }
}

/// What one module has to import: the names that its types refer to in
/// other modules.
#[derive(Debug, PartialEq, Eq)]
pub struct ModuleImports {
    /// The module that imports.
    pub module: String,
    /// The modules it imports from, each with the names imported from it,
    /// in the order in which they were first needed.
    pub sources: Vec<ImportSource>,
}

/// The mathematical value of a [`ModuleImports`].
pub struct ModuleImportsView {
    pub module: Seq<char>,
    pub sources: Seq<ImportSourceView>,
}

impl View for ModuleImports {
    type V = ModuleImportsView;

    open spec fn view(&self) -> ModuleImportsView {
        ModuleImportsView { module: self.module@, sources: self.sources.deep_view() }
    }
}

impl DeepView for ModuleImports {
    type V = ModuleImportsView;

    open spec fn deep_view(&self) -> ModuleImportsView {
        self.view()
    }
}

/// What the resolver works out: the emission order of the types and the
/// import manifest.
#[derive(Debug, PartialEq, Eq)]
pub struct TypeDependencies {
    /// The fully-qualified paths of all types, dependencies first.
    pub ordered_types: Vec<String>,
    /// The import manifest: for each module whose types refer to types of
    /// other modules, what it has to import; in the order in which the
    /// modules first needed an import.
    pub module_imports: Vec<ModuleImports>,
}

/// The mathematical value of a [`TypeDependencies`].
pub struct TypeDependenciesView {
    pub ordered_types: Seq<Seq<char>>,
    pub module_imports: Seq<ModuleImportsView>,
}

impl View for TypeDependencies {
    type V = TypeDependenciesView;

    open spec fn view(&self) -> TypeDependenciesView {
        TypeDependenciesView {
            ordered_types: self.ordered_types.deep_view(),
            module_imports: self.module_imports.deep_view(),
        }
    }
}

/// The position of the first node from `from` on that is declared under
/// `path`.
pub open spec fn find_node(nodes: Seq<TypeNodeView>, path: Seq<char>, from: int) -> Option<int>
    decreases nodes.len() - from,
{
    if from < 0 || from >= nodes.len() {
        None
    } else if nodes[from].path == path {
        Some(from)
    } else {
        find_node(nodes, path, from + 1)
    }
}

/// The module of the type at `path`: that of its declaration, or, for a
/// path that nothing declares, what stands before the path's last `::`.
pub open spec fn module_of(nodes: Seq<TypeNodeView>, path: Seq<char>) -> Seq<char> {
    match find_node(nodes, path, 0) {
        Some(j) => nodes[j].module,
        None => module_prefix(path),
    }
}

/// `names` with `name` added at the end, unless it is there already.
pub open spec fn add_name(names: Seq<Seq<char>>, name: Seq<char>) -> Seq<Seq<char>> {
    if names.contains(name) {
        names
    } else {
        names.push(name)
    }
}

/// The position of the first source from `from` on that is the module
/// `module`.
pub open spec fn find_source(sources: Seq<ImportSourceView>, module: Seq<char>, from: int) -> Option<
    int,
>
    decreases sources.len() - from,
{
    if from < 0 || from >= sources.len() {
        None
    } else if sources[from].module == module {
        Some(from)
    } else {
        find_source(sources, module, from + 1)
    }
}

/// The sources with `name` imported from `source`: added to the names of
/// that source, or as a new source at the end.
pub open spec fn add_source(sources: Seq<ImportSourceView>, source: Seq<char>, name: Seq<char>) -> Seq<
    ImportSourceView,
> {
    match find_source(sources, source, 0) {
        Some(k) => sources.update(
            k,
            ImportSourceView { module: source, type_names: add_name(sources[k].type_names, name) },
        ),
        None => sources.push(ImportSourceView { module: source, type_names: seq![name] }),
    }
}

/// The position of the first entry from `from` on that is for the
/// importing module `module`.
pub open spec fn find_module(manifest: Seq<ModuleImportsView>, module: Seq<char>, from: int) -> Option<
    int,
>
    decreases manifest.len() - from,
{
    if from < 0 || from >= manifest.len() {
        None
    } else if manifest[from].module == module {
        Some(from)
    } else {
        find_module(manifest, module, from + 1)
    }
}

/// The manifest after the module `importer` has come to need `name` from
/// the module `source`: added to the importer's entry, or in a new entry at
/// the end where the importer has none.
pub open spec fn add_import(
    manifest: Seq<ModuleImportsView>,
    importer: Seq<char>,
    source: Seq<char>,
    name: Seq<char>,
) -> Seq<ModuleImportsView> {
    match find_module(manifest, importer, 0) {
        Some(k) => manifest.update(
            k,
            ModuleImportsView {
                module: importer,
                sources: add_source(manifest[k].sources, source, name),
            },
        ),
        None => manifest.push(
            ModuleImportsView {
                module: importer,
                sources: seq![ImportSourceView { module: source, type_names: seq![name] }],
            },
        ),
    }
}

/// The manifest after the references `deps` of a type declared in `module`:
/// for every reference to a type of another module, `module` imports that
/// type's name, the last piece of its path, from that module.
pub open spec fn node_imports(
    nodes: Seq<TypeNodeView>,
    manifest: Seq<ModuleImportsView>,
    module: Seq<char>,
    deps: Seq<Seq<char>>,
) -> Seq<ModuleImportsView>
    decreases deps.len(),
{
    if deps.len() == 0 {
        manifest
    } else {
        let source = module_of(nodes, deps[0]);
        let next = if source != module {
            add_import(manifest, module, source, last_segment(deps[0]))
        } else {
            manifest
        };
        node_imports(nodes, next, module, deps.skip(1))
    }
}

/// The manifest after the nodes `order`, taken in order.
pub open spec fn order_imports(
    nodes: Seq<TypeNodeView>,
    manifest: Seq<ModuleImportsView>,
    order: Seq<int>,
) -> Seq<ModuleImportsView>
    decreases order.len(),
{
    if order.len() == 0 {
        manifest
    } else if 0 <= order[0] < nodes.len() {
        order_imports(
            nodes,
            node_imports(
                nodes,
                manifest,
                nodes[order[0]].module,
                nodes[order[0]].dependencies,
            ),
            order.skip(1),
        )
    } else {
        order_imports(nodes, manifest, order.skip(1))
    }
}

/// The paths of the nodes `order`.
pub open spec fn order_paths(nodes: Seq<TypeNodeView>, order: Seq<int>) -> Seq<Seq<char>> {
    order.map_values(|i: int| nodes[i].path)
}

/// What resolving the nodes gives.
///
/// Two nodes with one path are a duplicate type, named by that path.
/// Otherwise the nodes are placed in emission order. Where that order holds
/// every node, it is the result, with the import manifest that it gives.
/// Where it does not, the nodes have no topological order, and the error
/// names a node on a cycle of dependencies.
pub open spec fn resolve_nodes(nodes: Seq<TypeNodeView>) -> Result<
    TypeDependenciesView,
    ConvertErrorView,
> {
    match first_duplicate(nodes) {
        Some(j) => Err(ConvertErrorView::DuplicateType(nodes[j].path)),
        None => {
            let order = emission(nodes);
            if is_complete(nodes, order) {
                Ok(
                    TypeDependenciesView {
                        ordered_types: order_paths(nodes, order),
                        module_imports: order_imports(nodes, Seq::empty(), order),
                    },
                )
            } else {
                Err(ConvertErrorView::DependencyCycle(nodes[cycle_member(nodes, order)].path))
            }
        },
    }
}

/// What resolving the declared structs and enums gives.
pub open spec fn resolve_spec(structs: Seq<StructInfoView>, enums: Seq<EnumInfoView>) -> Result<
    TypeDependenciesView,
    ConvertErrorView,
> {
    resolve_nodes(type_nodes(structs, enums))
}

/// Adds the import of `name` from `source` to the sources of a module.
fn record_source(sources: &mut Vec<ImportSource>, source: String, name: String)
    ensures
        final(sources).deep_view() == add_source(old(sources).deep_view(), source@, name@),
{
    let ghost all = sources.deep_view();
    let mut k: usize = 0;
    while k < sources.len()
        invariant
            k <= sources@.len(),
            all == sources.deep_view(),
            sources@ == old(sources)@,
            find_source(all, source@, 0) == find_source(all, source@, k as int),
        decreases sources@.len() - k,
    {
        if str_eq(sources[k].module.as_str(), source.as_str()) {
            let mut entry = sources.remove(k);
            if !contains_path(&entry.type_names, name.as_str()) {
                let ghost before = entry.type_names.deep_view();
                entry.type_names.push(name);
                assert(entry.type_names.deep_view() =~= before.push(name@));
            }
            sources.insert(k, entry);
            assert(sources.deep_view() =~= add_source(all, source@, name@));
            return ;
        }
        k += 1;
    }
    let mut type_names: Vec<String> = Vec::new();
    type_names.push(name);
    assert(type_names.deep_view() =~= seq![name@]);
    sources.push(ImportSource { module: source, type_names });
    assert(sources.deep_view() =~= add_source(all, source@, name@));
}

/// Adds to the manifest that `importer` needs `name` from `source`.
fn record_import(manifest: &mut Vec<ModuleImports>, importer: &String, source: String, name: String)
    ensures
        final(manifest).deep_view() == add_import(
            old(manifest).deep_view(),
            importer@,
            source@,
            name@,
        ),
{
    let ghost all = manifest.deep_view();
    let mut k: usize = 0;
    while k < manifest.len()
        invariant
            k <= manifest@.len(),
            all == manifest.deep_view(),
            manifest@ == old(manifest)@,
            find_module(all, importer@, 0) == find_module(all, importer@, k as int),
        decreases manifest@.len() - k,
    {
        if str_eq(manifest[k].module.as_str(), importer.as_str()) {
            let mut entry = manifest.remove(k);
            record_source(&mut entry.sources, source, name);
            manifest.insert(k, entry);
            assert(manifest.deep_view() =~= add_import(all, importer@, source@, name@));
            return ;
        }
        k += 1;
    }
    let mut sources: Vec<ImportSource> = Vec::new();
    let mut type_names: Vec<String> = Vec::new();
    type_names.push(name);
    assert(type_names.deep_view() =~= seq![name@]);
    let first = ImportSource { module: source, type_names };
    sources.push(first);
    assert(sources.deep_view() =~= seq![first@]);
    manifest.push(ModuleImports { module: importer.clone(), sources });
    assert(manifest.deep_view() =~= add_import(all, importer@, source@, name@));
}

/// Resolves the order and the imports of a set of declared types.
pub struct DependencyResolver {
    pub structs: Vec<StructInfo>,
    pub enums: Vec<EnumInfo>,
}

impl DependencyResolver {
    /// Appends the paths that `kind` refers to.
    pub fn collect_type_dependencies(kind: &TypeKind, deps: &mut Vec<String>)
        ensures
            final(deps).deep_view() == old(deps).deep_view() + kind_dependencies(kind@),
        decreases kind,
    {
        match kind {
            TypeKind::Struct(_, path) => {
                deps.push(path.clone());
            },
            TypeKind::Enum(_, path) => {
                deps.push(path.clone());
            },
            TypeKind::Vec(inner) => {
                Self::collect_type_dependencies(&**inner, deps);
            },
            TypeKind::Option(inner) => {
                Self::collect_type_dependencies(&**inner, deps);
            },
            TypeKind::Array(inner, _) => {
                Self::collect_type_dependencies(&**inner, deps);
            },
            TypeKind::HashMap(key, value) => {
                Self::collect_type_dependencies(&**key, deps);
                Self::collect_type_dependencies(&**value, deps);
            },
            _ => {},
        }
    }
}


impl DependencyResolver {
    /// A resolver for the given structs and enums.
    pub fn new(structs: Vec<StructInfo>, enums: Vec<EnumInfo>) -> (r: Self)
        ensures
            r.structs == structs,
            r.enums == enums,
    {
        DependencyResolver { structs, enums }
    }

    /// The module of the type at `type_path`: that of its declaration, or,
    /// for a path that nothing declares, what stands before its last `::`.
    pub fn get_module_path(nodes: &Vec<TypeNode>, type_path: &str) -> (r: String)
        ensures
            r@ == module_of(nodes.deep_view(), type_path@),
    {
        let ghost all = nodes.deep_view();
        let mut j: usize = 0;
        while j < nodes.len()
            invariant
                j <= nodes@.len(),
                all == nodes.deep_view(),
                find_node(all, type_path@, 0) == find_node(all, type_path@, j as int),
            decreases nodes@.len() - j,
        {
            if str_eq(nodes[j].path.as_str(), type_path) {
                return nodes[j].module.clone();
            }
            j += 1;
        }
        path_module_prefix(type_path)
    }

    /// Adds to the manifest what the references of one node import.
    fn record_node_imports(nodes: &Vec<TypeNode>, manifest: &mut Vec<ModuleImports>, node: &TypeNode)
        ensures
            final(manifest).deep_view() == node_imports(
                nodes.deep_view(),
                old(manifest).deep_view(),
                node@.module,
                node@.dependencies,
            ),
    {
        let ghost all = nodes.deep_view();
        let ghost deps = node@.dependencies;
        let ghost goal = node_imports(all, manifest.deep_view(), node@.module, deps);
        let mut d: usize = 0;
        assert(deps.skip(0) =~= deps);
        while d < node.dependencies.len()
            invariant
                d <= node.dependencies@.len(),
                all == nodes.deep_view(),
                deps == node@.dependencies,
                node_imports(all, manifest.deep_view(), node@.module, deps.skip(d as int)) == goal,
            decreases node.dependencies@.len() - d,
        {
            assert(deps.skip(d as int).skip(1) =~= deps.skip(d + 1));
            let dep = node.dependencies[d].as_str();
            let source = Self::get_module_path(nodes, dep);
            if !str_eq(source.as_str(), node.module.as_str()) {
                record_import(manifest, &node.module, source, path_last_segment(dep));
            }
            d += 1;
        }
    }

    /// Orders the types dependencies-first and works out the imports.
    ///
    /// Fails with [`ConvertError::DuplicateType`] where two declarations
    /// share a fully-qualified path, and with
    /// [`ConvertError::DependencyCycle`] where the types cannot be ordered.
    pub fn resolve(&self) -> (r: Result<TypeDependencies, ConvertError>)
        ensures
            match r {
                Ok(deps) => resolve_spec(self.structs.deep_view(), self.enums.deep_view()) == Ok::<
                    TypeDependenciesView,
                    ConvertErrorView,
                >(deps@),
                Err(error) => resolve_spec(self.structs.deep_view(), self.enums.deep_view())
                    == Err::<TypeDependenciesView, ConvertErrorView>(error@),
            },
    {
        let nodes = build_nodes(&self.structs, &self.enums);
        let ghost all = nodes.deep_view();
        match find_duplicate(&nodes) {
            Some(j) => {
                return Err(ConvertError::DuplicateType(nodes[j].path.clone()));
            },
            None => {},
        }
        proof {
            lemma_no_duplicate(all);
        }
        let (order, unplaced) = emit_nodes(&nodes);
        let ghost placed = indices(order@);
        match unplaced {
            Some(u) => {
                return Err(ConvertError::DependencyCycle(nodes[u].path.clone()));
            },
            None => {},
        }
        let mut ordered_types: Vec<String> = Vec::new();
        let mut module_imports: Vec<ModuleImports> = Vec::new();
        let mut p: usize = 0;
        assert(placed.skip(0) =~= placed);
        assert(module_imports.deep_view() =~= Seq::empty());
        while p < order.len()
            invariant
                p <= order@.len(),
                all == nodes.deep_view(),
                placed == indices(order@),
                forall|k: int| 0 <= k < order@.len() ==> order@[k] < nodes@.len(),
                ordered_types@.len() == p,
                forall|k: int| 0 <= k < p ==> ordered_types@[k]@ == all[placed[k]].path,
                order_imports(all, module_imports.deep_view(), placed.skip(p as int)) == order_imports(
                    all,
                    Seq::empty(),
                    placed,
                ),
            decreases order@.len() - p,
        {
            assert(placed.skip(p as int).skip(1) =~= placed.skip(p + 1));
            let node = &nodes[order[p]];
            ordered_types.push(node.path.clone());
            Self::record_node_imports(&nodes, &mut module_imports, node);
            p += 1;
        }
        assert(ordered_types.deep_view() =~= order_paths(all, placed));
        Ok(TypeDependencies { ordered_types, module_imports })
    }
}


/// Among the sources `sources`, `name` is imported from `source`.
pub open spec fn source_has(sources: Seq<ImportSourceView>, source: Seq<char>, name: Seq<char>) -> bool {
    exists|s: int|
        0 <= s < sources.len() && sources[s].module == source && sources[s].type_names.contains(
            name,
        )
}

/// By the manifest, the module `importer` imports `name` from the module
/// `source`.
pub open spec fn imports_from(
    manifest: Seq<ModuleImportsView>,
    importer: Seq<char>,
    source: Seq<char>,
    name: Seq<char>,
) -> bool {
    exists|k: int|
        0 <= k < manifest.len() && manifest[k].module == importer && source_has(
            manifest[k].sources,
            source,
            name,
        )
}

/// Some type of the module `module` with the references `deps` refers to
/// the type `name` of the other module `source`.
pub open spec fn refers_to(
    nodes: Seq<TypeNodeView>,
    module: Seq<char>,
    deps: Seq<Seq<char>>,
    source: Seq<char>,
    name: Seq<char>,
) -> bool {
    exists|d: int|
        0 <= d < deps.len() && module_of(nodes, deps[d]) == source && source != module
            && last_segment(deps[d]) == name
}

/// Some node of the module `importer` refers to the type `name` of the
/// other module `source`.
pub open spec fn module_refers_to(
    nodes: Seq<TypeNodeView>,
    importer: Seq<char>,
    source: Seq<char>,
    name: Seq<char>,
) -> bool {
    exists|a: int|
        0 <= a < nodes.len() && nodes[a].module == importer && refers_to(
            nodes,
            importer,
            nodes[a].dependencies,
            source,
            name,
        )
}

/// No name occurs twice.
pub open spec fn distinct_names(names: Seq<Seq<char>>) -> bool {
    forall|i: int, j: int| 0 <= i < j < names.len() ==> names[i] != names[j]
}

/// The sources of the module `importer` are in order: each source module
/// occurs once and is another module than the importer, and each source
/// holds at least one name and no name twice.
pub open spec fn sources_in_order(sources: Seq<ImportSourceView>, importer: Seq<char>) -> bool {
    &&& forall|s: int|
        0 <= s < sources.len() ==> (#[trigger] sources[s]).module != importer
            && sources[s].type_names.len() > 0 && distinct_names(sources[s].type_names)
    &&& forall|s: int, t: int| 0 <= s < t < sources.len() ==> sources[s].module != sources[t].module
}

/// The manifest is in order: each importing module occurs once and has at
/// least one source, and its sources are in order.
pub open spec fn manifest_in_order(manifest: Seq<ModuleImportsView>) -> bool {
    &&& forall|k: int|
        0 <= k < manifest.len() ==> (#[trigger] manifest[k]).sources.len() > 0 && sources_in_order(
            manifest[k].sources,
            manifest[k].module,
        )
    &&& forall|k: int, l: int|
        0 <= k < l < manifest.len() ==> manifest[k].module != manifest[l].module
}

/// Where `find_source` finds a position, it is that of the first source from
/// `from` on that is the module; where it finds none, no source from `from`
/// on is.
proof fn lemma_find_source(sources: Seq<ImportSourceView>, module: Seq<char>, from: int)
    requires
        0 <= from,
    ensures
        match find_source(sources, module, from) {
            Some(k) => from <= k < sources.len() && sources[k].module == module,
            None => forall|k: int| from <= k < sources.len() ==> sources[k].module != module,
        },
    decreases sources.len() - from,
{
    if from < sources.len() && sources[from].module != module {
        lemma_find_source(sources, module, from + 1);
    }
}

/// Where `find_module` finds a position, an entry for the module stands
/// there; where it finds none, no entry from `from` on is for the module.
proof fn lemma_find_module(manifest: Seq<ModuleImportsView>, module: Seq<char>, from: int)
    requires
        0 <= from,
    ensures
        match find_module(manifest, module, from) {
            Some(k) => from <= k < manifest.len() && manifest[k].module == module,
            None => forall|k: int| from <= k < manifest.len() ==> manifest[k].module != module,
        },
    decreases manifest.len() - from,
{
    if from < manifest.len() && manifest[from].module != module {
        lemma_find_module(manifest, module, from + 1);
    }
}

/// Where `find_node` finds a position, it is that of the first node from
/// `from` on with the path; where it finds none, no such node has it.
proof fn lemma_find_node(nodes: Seq<TypeNodeView>, path: Seq<char>, from: int)
    requires
        0 <= from,
    ensures
        match find_node(nodes, path, from) {
            Some(j) => from <= j < nodes.len() && nodes[j].path == path && forall|k: int|
                from <= k < j ==> nodes[k].path != path,
            None => forall|k: int| from <= k < nodes.len() ==> nodes[k].path != path,
        },
    decreases nodes.len() - from,
{
    if from < nodes.len() && nodes[from].path != path {
        lemma_find_node(nodes, path, from + 1);
    }
}

/// What a list of names holds after a name has been added.
proof fn lemma_add_name(names: Seq<Seq<char>>, name: Seq<char>, other: Seq<char>)
    ensures
        add_name(names, name).contains(other) <==> names.contains(other) || other == name,
        distinct_names(names) ==> distinct_names(add_name(names, name)),
        add_name(names, name).len() > 0,
{
    let after = add_name(names, name);
    if !names.contains(name) {
        assert(after[names.len() as int] == name);
        if names.contains(other) {
            let q = choose|q: int| 0 <= q < names.len() && names[q] == other;
            assert(after[q] == other);
        }
        if after.contains(other) {
            let q = choose|q: int| 0 <= q < after.len() && after[q] == other;
            if q < names.len() {
                assert(names[q] == other);
            }
        }
        if distinct_names(names) {
            assert forall|i: int, j: int| 0 <= i < j < after.len() implies after[i] != after[j] by {
                if j == names.len() {
                    assert(names[i] == after[i]);
                }
            }
        }
    } else {
        let q = choose|q: int| 0 <= q < names.len() && names[q] == name;
    }
}

/// What the sources hold after an import has been added: what they held,
/// and the import.
proof fn lemma_add_source(
    sources: Seq<ImportSourceView>,
    source: Seq<char>,
    name: Seq<char>,
    other_source: Seq<char>,
    other_name: Seq<char>,
)
    ensures
        source_has(add_source(sources, source, name), other_source, other_name) <==> source_has(
            sources,
            other_source,
            other_name,
        ) || (other_source == source && other_name == name),
{
    lemma_find_source(sources, source, 0);
    let after = add_source(sources, source, name);
    match find_source(sources, source, 0) {
        Some(k) => {
            lemma_add_name(sources[k].type_names, name, other_name);
            if source_has(sources, other_source, other_name) {
                let t = choose|t: int|
                    0 <= t < sources.len() && sources[t].module == other_source
                        && sources[t].type_names.contains(other_name);
                assert(after[t].module == other_source && after[t].type_names.contains(other_name));
            }
            if other_source == source && other_name == name {
                assert(after[k].module == other_source && after[k].type_names.contains(other_name));
            }
            if source_has(after, other_source, other_name) {
                let t = choose|t: int|
                    0 <= t < after.len() && after[t].module == other_source
                        && after[t].type_names.contains(other_name);
                if t != k {
                    assert(sources[t] == after[t]);
                } else if other_name != name {
                    assert(sources[k].module == other_source && sources[k].type_names.contains(
                        other_name,
                    ));
                }
            }
        },
        None => {
            let last = sources.len() as int;
            assert(seq![name][0] == name);
            if source_has(sources, other_source, other_name) {
                let t = choose|t: int|
                    0 <= t < sources.len() && sources[t].module == other_source
                        && sources[t].type_names.contains(other_name);
                assert(after[t] == sources[t]);
            }
            if other_source == source && other_name == name {
                assert(after[last].module == other_source && after[last].type_names.contains(
                    other_name,
                ));
            }
            if source_has(after, other_source, other_name) {
                let t = choose|t: int|
                    0 <= t < after.len() && after[t].module == other_source
                        && after[t].type_names.contains(other_name);
                if t < last {
                    assert(sources[t] == after[t]);
                } else {
                    let q = choose|q: int| 0 <= q < seq![name].len() && seq![name][q] == other_name;
                }
            }
        },
    }
}

/// Adding an import from another module keeps the sources in order.
proof fn lemma_add_source_in_order(
    sources: Seq<ImportSourceView>,
    importer: Seq<char>,
    source: Seq<char>,
    name: Seq<char>,
)
    requires
        sources_in_order(sources, importer),
        source != importer,
    ensures
        sources_in_order(add_source(sources, source, name), importer),
        add_source(sources, source, name).len() > 0,
{
    lemma_find_source(sources, source, 0);
    let after = add_source(sources, source, name);
    match find_source(sources, source, 0) {
        Some(k) => {
            lemma_add_name(sources[k].type_names, name, name);
            assert forall|s: int| 0 <= s < after.len() implies (#[trigger] after[s]).module
                != importer && after[s].type_names.len() > 0 && distinct_names(
                after[s].type_names,
            ) by {
                if s != k {
                    assert(after[s] == sources[s]);
                }
            }
            assert forall|s: int, t: int| 0 <= s < t < after.len() implies after[s].module
                != after[t].module by {
                assert(after[s].module == sources[s].module);
                assert(after[t].module == sources[t].module);
            }
        },
        None => {
            let last = sources.len() as int;
            assert(distinct_names(seq![name]));
            assert forall|s: int| 0 <= s < after.len() implies (#[trigger] after[s]).module
                != importer && after[s].type_names.len() > 0 && distinct_names(
                after[s].type_names,
            ) by {
                if s < last {
                    assert(after[s] == sources[s]);
                }
            }
            assert forall|s: int, t: int| 0 <= s < t < after.len() implies after[s].module
                != after[t].module by {
                assert(after[s] == sources[s]);
                if t < last {
                    assert(after[t] == sources[t]);
                }
            }
        },
    }
}

/// What the manifest holds after an import has been added: what it held,
/// and the import.
proof fn lemma_add_import(
    manifest: Seq<ModuleImportsView>,
    importer: Seq<char>,
    source: Seq<char>,
    name: Seq<char>,
    other_importer: Seq<char>,
    other_source: Seq<char>,
    other_name: Seq<char>,
)
    ensures
        imports_from(
            add_import(manifest, importer, source, name),
            other_importer,
            other_source,
            other_name,
        ) <==> imports_from(manifest, other_importer, other_source, other_name) || (other_importer
            == importer && other_source == source && other_name == name),
{
    lemma_find_module(manifest, importer, 0);
    let after = add_import(manifest, importer, source, name);
    let is_new = other_importer == importer && other_source == source && other_name == name;
    match find_module(manifest, importer, 0) {
        Some(k) => {
            lemma_add_source(manifest[k].sources, source, name, other_source, other_name);
            if imports_from(manifest, other_importer, other_source, other_name) {
                let t = choose|t: int|
                    0 <= t < manifest.len() && manifest[t].module == other_importer && source_has(
                        manifest[t].sources,
                        other_source,
                        other_name,
                    );
                assert(after[t].module == other_importer && source_has(
                    after[t].sources,
                    other_source,
                    other_name,
                ));
            }
            if is_new {
                assert(after[k].module == other_importer && source_has(
                    after[k].sources,
                    other_source,
                    other_name,
                ));
            }
            if imports_from(after, other_importer, other_source, other_name) {
                let t = choose|t: int|
                    0 <= t < after.len() && after[t].module == other_importer && source_has(
                        after[t].sources,
                        other_source,
                        other_name,
                    );
                if t != k {
                    assert(manifest[t] == after[t]);
                } else if !is_new {
                    assert(manifest[k].module == other_importer && source_has(
                        manifest[k].sources,
                        other_source,
                        other_name,
                    ));
                }
            }
        },
        None => {
            let last = manifest.len() as int;
            let first = ImportSourceView { module: source, type_names: seq![name] };
            assert(seq![name][0] == name);
            assert(seq![first][0] == first);
            if imports_from(manifest, other_importer, other_source, other_name) {
                let t = choose|t: int|
                    0 <= t < manifest.len() && manifest[t].module == other_importer && source_has(
                        manifest[t].sources,
                        other_source,
                        other_name,
                    );
                assert(after[t] == manifest[t]);
            }
            if is_new {
                assert(source_has(after[last].sources, other_source, other_name));
            }
            if imports_from(after, other_importer, other_source, other_name) {
                let t = choose|t: int|
                    0 <= t < after.len() && after[t].module == other_importer && source_has(
                        after[t].sources,
                        other_source,
                        other_name,
                    );
                if t < last {
                    assert(manifest[t] == after[t]);
                } else {
                    let q = choose|q: int|
                        0 <= q < after[t].sources.len() && after[t].sources[q].module
                            == other_source && after[t].sources[q].type_names.contains(other_name);
                    let r = choose|r: int|
                        0 <= r < after[t].sources[q].type_names.len()
                            && after[t].sources[q].type_names[r] == other_name;
                }
            }
        },
    }
}

/// Adding an import from another module keeps the manifest in order.
proof fn lemma_add_import_in_order(
    manifest: Seq<ModuleImportsView>,
    importer: Seq<char>,
    source: Seq<char>,
    name: Seq<char>,
)
    requires
        manifest_in_order(manifest),
        source != importer,
    ensures
        manifest_in_order(add_import(manifest, importer, source, name)),
{
    lemma_find_module(manifest, importer, 0);
    let after = add_import(manifest, importer, source, name);
    match find_module(manifest, importer, 0) {
        Some(k) => {
            lemma_add_source_in_order(manifest[k].sources, importer, source, name);
            assert forall|t: int| 0 <= t < after.len() implies (#[trigger] after[t]).sources.len()
                > 0 && sources_in_order(after[t].sources, after[t].module) by {
                if t != k {
                    assert(after[t] == manifest[t]);
                }
            }
            assert forall|t: int, l: int| 0 <= t < l < after.len() implies after[t].module
                != after[l].module by {
                assert(after[t].module == manifest[t].module);
                assert(after[l].module == manifest[l].module);
            }
        },
        None => {
            let last = manifest.len() as int;
            let first = ImportSourceView { module: source, type_names: seq![name] };
            assert(distinct_names(seq![name]));
            assert(sources_in_order(seq![first], importer));
            assert forall|t: int| 0 <= t < after.len() implies (#[trigger] after[t]).sources.len()
                > 0 && sources_in_order(after[t].sources, after[t].module) by {
                if t < last {
                    assert(after[t] == manifest[t]);
                }
            }
            assert forall|t: int, l: int| 0 <= t < l < after.len() implies after[t].module
                != after[l].module by {
                assert(after[t] == manifest[t]);
                if l < last {
                    assert(after[l] == manifest[l]);
                }
            }
        },
    }
}

/// What the manifest holds after the references of a type of `module`:
/// what it held, and for `module` what the references need.
proof fn lemma_node_imports(
    nodes: Seq<TypeNodeView>,
    manifest: Seq<ModuleImportsView>,
    module: Seq<char>,
    deps: Seq<Seq<char>>,
    importer: Seq<char>,
    source: Seq<char>,
    name: Seq<char>,
)
    ensures
        imports_from(node_imports(nodes, manifest, module, deps), importer, source, name)
            <==> imports_from(manifest, importer, source, name) || (importer == module && refers_to(
            nodes,
            module,
            deps,
            source,
            name,
        )),
        manifest_in_order(manifest) ==> manifest_in_order(
            node_imports(nodes, manifest, module, deps),
        ),
    decreases deps.len(),
{
    if deps.len() > 0 {
        let first_source = module_of(nodes, deps[0]);
        let first_name = last_segment(deps[0]);
        let rest = deps.skip(1);
        let next = if first_source != module {
            add_import(manifest, module, first_source, first_name)
        } else {
            manifest
        };
        if first_source != module {
            lemma_add_import(manifest, module, first_source, first_name, importer, source, name);
            if manifest_in_order(manifest) {
                lemma_add_import_in_order(manifest, module, first_source, first_name);
            }
        }
        lemma_node_imports(nodes, next, module, rest, importer, source, name);
        if refers_to(nodes, module, rest, source, name) {
            let d = choose|d: int|
                0 <= d < rest.len() && module_of(nodes, rest[d]) == source && source != module
                    && last_segment(rest[d]) == name;
            assert(deps[d + 1] == rest[d]);
        }
        if refers_to(nodes, module, deps, source, name) {
            let d = choose|d: int|
                0 <= d < deps.len() && module_of(nodes, deps[d]) == source && source != module
                    && last_segment(deps[d]) == name;
            if d > 0 {
                assert(rest[d - 1] == deps[d]);
            }
        }
    }
}

/// Some node of `order` belongs to `importer` and refers to the type `name`
/// of the other module `source`.
pub open spec fn order_refers_to(
    nodes: Seq<TypeNodeView>,
    order: Seq<int>,
    importer: Seq<char>,
    source: Seq<char>,
    name: Seq<char>,
) -> bool {
    exists|p: int|
        0 <= p < order.len() && 0 <= order[p] < nodes.len() && nodes[order[p]].module == importer
            && refers_to(nodes, importer, nodes[order[p]].dependencies, source, name)
}

/// What the manifest holds after the nodes of `order`: what it held, and
/// for each module what the references of its nodes need.
proof fn lemma_order_imports(
    nodes: Seq<TypeNodeView>,
    manifest: Seq<ModuleImportsView>,
    order: Seq<int>,
    importer: Seq<char>,
    source: Seq<char>,
    name: Seq<char>,
)
    ensures
        imports_from(order_imports(nodes, manifest, order), importer, source, name)
            <==> imports_from(manifest, importer, source, name) || order_refers_to(
            nodes,
            order,
            importer,
            source,
            name,
        ),
        manifest_in_order(manifest) ==> manifest_in_order(order_imports(nodes, manifest, order)),
    decreases order.len(),
{
    if order.len() > 0 {
        let rest = order.skip(1);
        let next = if 0 <= order[0] < nodes.len() {
            node_imports(nodes, manifest, nodes[order[0]].module, nodes[order[0]].dependencies)
        } else {
            manifest
        };
        if 0 <= order[0] < nodes.len() {
            lemma_node_imports(
                nodes,
                manifest,
                nodes[order[0]].module,
                nodes[order[0]].dependencies,
                importer,
                source,
                name,
            );
        }
        lemma_order_imports(nodes, next, rest, importer, source, name);
        if order_refers_to(nodes, rest, importer, source, name) {
            let p = choose|p: int|
                0 <= p < rest.len() && 0 <= rest[p] < nodes.len() && nodes[rest[p]].module
                    == importer && refers_to(
                    nodes,
                    importer,
                    nodes[rest[p]].dependencies,
                    source,
                    name,
                );
            assert(order[p + 1] == rest[p]);
        }
        if order_refers_to(nodes, order, importer, source, name) {
            let p = choose|p: int|
                0 <= p < order.len() && 0 <= order[p] < nodes.len() && nodes[order[p]].module
                    == importer && refers_to(
                    nodes,
                    importer,
                    nodes[order[p]].dependencies,
                    source,
                    name,
                );
            if p > 0 {
                assert(rest[p - 1] == order[p]);
            }
        }
    }
}

/// Ordering: where resolving succeeds, every declared type stands in the
/// order, and a type that refers to a declared type stands behind it.
pub proof fn lemma_dependencies_first(nodes: Seq<TypeNodeView>, a: int, b: int, pa: int, pb: int)
    requires
        resolve_nodes(nodes) is Ok,
        depends_on(nodes, a, b),
        0 <= pa < resolve_nodes(nodes)->Ok_0.ordered_types.len(),
        0 <= pb < resolve_nodes(nodes)->Ok_0.ordered_types.len(),
        resolve_nodes(nodes)->Ok_0.ordered_types[pa] == nodes[a].path,
        resolve_nodes(nodes)->Ok_0.ordered_types[pb] == nodes[b].path,
    ensures
        resolve_nodes(nodes)->Ok_0.ordered_types.contains(nodes[a].path),
        resolve_nodes(nodes)->Ok_0.ordered_types.contains(nodes[b].path),
        pb < pa,
{
    lemma_no_duplicate(nodes);
    let order = emission(nodes);
    lemma_emission(nodes, order);
    lemma_emit_from(nodes, Seq::empty());
}

/// Every declared type stands in the order of a successful resolution.
pub proof fn lemma_order_complete(nodes: Seq<TypeNodeView>, a: int)
    requires
        resolve_nodes(nodes) is Ok,
        0 <= a < nodes.len(),
    ensures
        resolve_nodes(nodes)->Ok_0.ordered_types.contains(nodes[a].path),
{
    let order = emission(nodes);
    assert(order.contains(a));
    let p = choose|p: int| 0 <= p < order.len() && order[p] == a;
    assert(order_paths(nodes, order)[p] == nodes[a].path);
}

/// Imports: where resolving succeeds, a module imports a name from another
/// module exactly where one of its types refers to a type of that name in
/// that module; the name is the last piece of the referenced path.
pub proof fn lemma_manifest_exact(
    nodes: Seq<TypeNodeView>,
    importer: Seq<char>,
    source: Seq<char>,
    name: Seq<char>,
)
    requires
        resolve_nodes(nodes) is Ok,
    ensures
        imports_from(resolve_nodes(nodes)->Ok_0.module_imports, importer, source, name)
            <==> module_refers_to(nodes, importer, source, name),
{
    let order = emission(nodes);
    let empty = Seq::<ModuleImportsView>::empty();
    lemma_emit_from(nodes, Seq::empty());
    lemma_order_imports(nodes, empty, order, importer, source, name);
    if order_refers_to(nodes, order, importer, source, name) {
        let p = choose|p: int|
            0 <= p < order.len() && 0 <= order[p] < nodes.len() && nodes[order[p]].module
                == importer && refers_to(
                nodes,
                importer,
                nodes[order[p]].dependencies,
                source,
                name,
            );
        assert(0 <= order[p] < nodes.len() && nodes[order[p]].module == importer && refers_to(
            nodes,
            importer,
            nodes[order[p]].dependencies,
            source,
            name,
        ));
    }
    if module_refers_to(nodes, importer, source, name) {
        let a = choose|a: int|
            0 <= a < nodes.len() && nodes[a].module == importer && refers_to(
                nodes,
                importer,
                nodes[a].dependencies,
                source,
                name,
            );
        assert(order.contains(a));
        let p = choose|p: int| 0 <= p < order.len() && order[p] == a;
        assert(0 <= order[p] < nodes.len() && nodes[order[p]].module == importer && refers_to(
            nodes,
            importer,
            nodes[order[p]].dependencies,
            source,
            name,
        ));
    }
}

/// Imports: where resolving succeeds, the manifest holds each importing
/// module once, for each of them each module imported from once, and for
/// each of those each name once; no entry is empty, and no module imports
/// from itself.
pub proof fn lemma_manifest_in_order(nodes: Seq<TypeNodeView>)
    requires
        resolve_nodes(nodes) is Ok,
    ensures
        manifest_in_order(resolve_nodes(nodes)->Ok_0.module_imports),
{
    let empty = Seq::<ModuleImportsView>::empty();
    let none = Seq::<char>::empty();
    lemma_order_imports(nodes, empty, emission(nodes), none, none, none);
}

/// Imports: where resolving succeeds, a module none of whose types refers
/// to a type of another module has no entry in the manifest.
pub proof fn lemma_imports_nothing(nodes: Seq<TypeNodeView>, module: Seq<char>)
    requires
        resolve_nodes(nodes) is Ok,
        forall|source: Seq<char>, name: Seq<char>| !module_refers_to(nodes, module, source, name),
    ensures
        find_module(resolve_nodes(nodes)->Ok_0.module_imports, module, 0) is None,
{
    let manifest = resolve_nodes(nodes)->Ok_0.module_imports;
    lemma_manifest_in_order(nodes);
    lemma_find_module(manifest, module, 0);
    if find_module(manifest, module, 0) is Some {
        let k = find_module(manifest, module, 0)->0;
        let first = manifest[k].sources[0];
        let name = first.type_names[0];
        assert(first.type_names.contains(name));
        assert(source_has(manifest[k].sources, first.module, name));
        assert(imports_from(manifest, module, first.module, name));
        lemma_manifest_exact(nodes, module, first.module, name);
    }
}

/// Imports: where resolving succeeds and a type refers to a declared type
/// of another module, the manifest has, for the module of the referring
/// type, that type's name, the last piece of its path, imported from its
/// module.
pub proof fn lemma_cross_module_import(nodes: Seq<TypeNodeView>, a: int, b: int)
    requires
        resolve_nodes(nodes) is Ok,
        depends_on(nodes, a, b),
        nodes[a].module != nodes[b].module,
    ensures
        imports_from(
            resolve_nodes(nodes)->Ok_0.module_imports,
            nodes[a].module,
            nodes[b].module,
            last_segment(nodes[b].path),
        ),
{
    lemma_no_duplicate(nodes);
    let deps = nodes[a].dependencies;
    let d = choose|d: int| 0 <= d < deps.len() && deps[d] == nodes[b].path;
    lemma_find_node(nodes, nodes[b].path, 0);
    assert(module_of(nodes, deps[d]) == nodes[b].module);
    assert(refers_to(nodes, nodes[a].module, deps, nodes[b].module, last_segment(nodes[b].path)));
    lemma_manifest_exact(nodes, nodes[a].module, nodes[b].module, last_segment(nodes[b].path));
}

/// Where some node from `from` on is left out of `order`, the first one
/// that is left out is found.
proof fn lemma_first_missing(nodes: Seq<TypeNodeView>, order: Seq<int>, from: int)
    requires
        0 <= from,
        exists|i: int| from <= i < nodes.len() && !order.contains(i),
    ensures
        from <= first_missing_from(nodes, order, from) < nodes.len(),
        !order.contains(first_missing_from(nodes, order, from)),
    decreases nodes.len() - from,
{
    if order.contains(from) {
        lemma_first_missing(nodes, order, from + 1);
    }
}

/// Where no node comes next, no node is ready.
proof fn lemma_none_ready(nodes: Seq<TypeNodeView>, done: Seq<int>)
    requires
        next_node(nodes, done) is None,
    ensures
        forall|i: int| !is_ready(nodes, done, i),
{
    if exists|i: int| is_ready(nodes, done, i) {
        let least = lemma_least_ready(nodes, done, nodes.len() as int);
        assert(is_next(nodes, done, least));
    }
}

/// Cycles: the path that a dependency cycle error names is that of a
/// declared type that lies on a cycle of dependencies.
pub proof fn lemma_cycle_named(nodes: Seq<TypeNodeView>) -> (member: int)
    requires
        resolve_nodes(nodes) matches Err(ConvertErrorView::DependencyCycle(_)),
    ensures
        0 <= member < nodes.len(),
        on_cycle(nodes, member),
        resolve_nodes(nodes) == Err::<TypeDependenciesView, ConvertErrorView>(
            ConvertErrorView::DependencyCycle(nodes[member].path),
        ),
{
    let order = emission(nodes);
    lemma_emit_from(nodes, Seq::empty());
    lemma_none_ready(nodes, order);
    lemma_first_missing(nodes, order, 0);
    let start = first_missing_from(nodes, order, 0);
    let walk = seq![start];
    lemma_cycle_walk(nodes, order, walk);
    cycle_member(nodes, order)
}


/// Where some node from `from` on repeats an earlier path, not all paths
/// differ.
proof fn lemma_first_duplicate_found(nodes: Seq<TypeNodeView>, from: int)
    requires
        0 <= from,
        first_duplicate_from(nodes, from) is Some,
    ensures
        !distinct_paths(nodes),
    decreases nodes.len() - from,
{
    if exists|i: int| 0 <= i < from && nodes[i].path == nodes[from].path {
    } else {
        lemma_first_duplicate_found(nodes, from + 1);
    }
}

/// When resolving succeeds and how it fails: with a duplicate type exactly
/// where two nodes share a path; otherwise with a dependency cycle exactly
/// where the nodes have no topological order; and it succeeds exactly where
/// all paths differ and a topological order exists.
pub proof fn lemma_resolve_outcome(nodes: Seq<TypeNodeView>)
    ensures
        resolve_nodes(nodes) matches Err(ConvertErrorView::DuplicateType(_)) <==> !distinct_paths(
            nodes,
        ),
        resolve_nodes(nodes) matches Err(ConvertErrorView::DependencyCycle(_)) <==> distinct_paths(
            nodes,
        ) && forall|order: Seq<int>| !is_topological_order(nodes, order),
        resolve_nodes(nodes) is Ok <==> distinct_paths(nodes) && exists|order: Seq<int>|
            is_topological_order(nodes, order),
{
    if first_duplicate(nodes) is Some {
        lemma_first_duplicate_found(nodes, 0);
    } else {
        lemma_no_duplicate(nodes);
        if is_complete(nodes, emission(nodes)) {
            lemma_emission(nodes, emission(nodes));
        } else {
            assert forall|order: Seq<int>| !is_topological_order(nodes, order) by {
                lemma_emission(nodes, order);
            }
        }
    }
}

/// Every node of `order` was the node to come next when it was placed.
pub open spec fn placed_in_turn(nodes: Seq<TypeNodeView>, order: Seq<int>) -> bool {
    forall|p: int| 0 <= p < order.len() ==> is_next(nodes, order.take(p), #[trigger] order[p])
}

/// The emission from `done` on places every node in its turn.
proof fn lemma_emit_in_turn(nodes: Seq<TypeNodeView>, done: Seq<int>)
    requires
        placed_in_turn(nodes, done),
    ensures
        placed_in_turn(nodes, emit_from(nodes, done)),
    decreases missing(nodes.len() as int, done),
{
    match next_node(nodes, done) {
        Some(i) => {
            lemma_missing_push(nodes.len() as int, done, i);
            let after = done.push(i);
            assert forall|p: int| 0 <= p < after.len() implies is_next(
                nodes,
                after.take(p),
                #[trigger] after[p],
            ) by {
                if p < done.len() {
                    assert(after.take(p) =~= done.take(p));
                } else {
                    assert(after.take(p) =~= done);
                }
            }
            lemma_emit_in_turn(nodes, after);
        },
        None => {},
    }
}

/// The list holds the node `node`.
#[verifier::opaque]
pub open spec fn holds_node(list: Seq<TypeNodeView>, node: TypeNodeView) -> bool {
    exists|j: int| 0 <= j < list.len() && list[j] == node
}

/// The two lists hold the same nodes, in whatever order.
pub open spec fn same_nodes(a: Seq<TypeNodeView>, b: Seq<TypeNodeView>) -> bool {
    &&& forall|i: int| 0 <= i < a.len() ==> #[trigger] holds_node(b, a[i])
    &&& forall|j: int| 0 <= j < b.len() ==> #[trigger] holds_node(a, b[j])
}

/// Where the node at position `i` of one list stands in a list that holds
/// the same nodes.
proof fn lemma_position_in(a: Seq<TypeNodeView>, b: Seq<TypeNodeView>, i: int) -> (j: int)
    requires
        same_nodes(a, b),
        0 <= i < a.len(),
    ensures
        0 <= j < b.len(),
        b[j] == a[i],
{
    reveal(holds_node);
    assert(holds_node(b, a[i]));
    choose|j: int| 0 <= j < b.len() && b[j] == a[i]
}

/// Some node is declared under `path`.
pub open spec fn declared(nodes: Seq<TypeNodeView>, path: Seq<char>) -> bool {
    exists|i: int| 0 <= i < nodes.len() && nodes[i].path == path
}

/// Every declared type that `node` refers to has its path in `done`.
pub open spec fn dependencies_placed(
    nodes: Seq<TypeNodeView>,
    node: TypeNodeView,
    done: Seq<Seq<char>>,
) -> bool {
    forall|d: int|
        0 <= d < node.dependencies.len() && declared(nodes, #[trigger] node.dependencies[d])
            ==> done.contains(node.dependencies[d])
}

/// The type at `path` is declared, is not in `done`, and every declared
/// type it refers to is.
pub open spec fn path_ready(nodes: Seq<TypeNodeView>, done: Seq<Seq<char>>, path: Seq<char>) -> bool {
    &&& !done.contains(path)
    &&& exists|i: int|
        0 <= i < nodes.len() && nodes[i].path == path && dependencies_placed(nodes, nodes[i], done)
}

/// Of the paths that are ready, `path` sorts first.
pub open spec fn path_next(nodes: Seq<TypeNodeView>, done: Seq<Seq<char>>, path: Seq<char>) -> bool {
    &&& path_ready(nodes, done, path)
    &&& forall|other: Seq<char>| path_ready(nodes, done, other) ==> lex_le(path, other)
}

/// `order` is the emission order by path: each path was, when it was
/// placed, the ready path that sorts first, and after the last no path is
/// ready. Nothing in this depends on where in the list a node stands.
pub open spec fn is_path_emission(nodes: Seq<TypeNodeView>, order: Seq<Seq<char>>) -> bool {
    &&& forall|k: int| 0 <= k < order.len() ==> path_next(nodes, order.take(k), #[trigger] order[k])
    &&& forall|other: Seq<char>| !path_ready(nodes, order, other)
}

/// Two emission orders by path agree on their first `k` paths.
proof fn lemma_path_emission_prefix(
    nodes: Seq<TypeNodeView>,
    a: Seq<Seq<char>>,
    b: Seq<Seq<char>>,
    k: int,
)
    requires
        is_path_emission(nodes, a),
        is_path_emission(nodes, b),
        0 <= k <= a.len(),
        k <= b.len(),
    ensures
        a.take(k) == b.take(k),
    decreases k,
{
    if k > 0 {
        lemma_path_emission_prefix(nodes, a, b, k - 1);
        let done = a.take(k - 1);
        assert(path_next(nodes, done, a[k - 1]));
        assert(path_next(nodes, done, b[k - 1]));
        assert(path_ready(nodes, done, a[k - 1]));
        assert(path_ready(nodes, done, b[k - 1]));
        assert(lex_le(a[k - 1], b[k - 1]));
        assert(lex_le(b[k - 1], a[k - 1]));
        lemma_lex_total(a[k - 1], b[k - 1]);
        assert(a.take(k) =~= a.take(k - 1).push(a[k - 1]));
        assert(b.take(k) =~= b.take(k - 1).push(b[k - 1]));
    } else {
        assert(a.take(0) =~= b.take(0));
    }
}

/// There is one emission order by path.
proof fn lemma_path_emission_unique(nodes: Seq<TypeNodeView>, a: Seq<Seq<char>>, b: Seq<Seq<char>>)
    requires
        is_path_emission(nodes, a),
        is_path_emission(nodes, b),
    ensures
        a == b,
{
    if a.len() <= b.len() {
        lemma_path_emission_prefix(nodes, a, b, a.len() as int);
        assert(a.take(a.len() as int) =~= a);
        if a.len() < b.len() {
            assert(path_next(nodes, b.take(a.len() as int), b[a.len() as int]));
            assert(path_ready(nodes, a, b[a.len() as int]));
        }
        assert(b.take(b.len() as int) =~= b);
    } else {
        lemma_path_emission_prefix(nodes, a, b, b.len() as int);
        assert(b.take(b.len() as int) =~= b);
        assert(path_next(nodes, a.take(b.len() as int), a[b.len() as int]));
        assert(path_ready(nodes, b, a[b.len() as int]));
    }
}

/// Lists that hold the same nodes declare the same paths.
proof fn lemma_same_declared(a: Seq<TypeNodeView>, b: Seq<TypeNodeView>, path: Seq<char>)
    requires
        same_nodes(a, b),
        declared(a, path),
    ensures
        declared(b, path),
{
    let i = choose|i: int| 0 <= i < a.len() && a[i].path == path;
    let j = lemma_position_in(a, b, i);
    assert(b[j].path == path);
}

/// In lists that hold the same nodes the same paths are ready.
proof fn lemma_same_ready(
    a: Seq<TypeNodeView>,
    b: Seq<TypeNodeView>,
    done: Seq<Seq<char>>,
    path: Seq<char>,
)
    requires
        same_nodes(a, b),
        path_ready(a, done, path),
    ensures
        path_ready(b, done, path),
{
    let i = choose|i: int|
        0 <= i < a.len() && a[i].path == path && dependencies_placed(a, a[i], done);
    let j = lemma_position_in(a, b, i);
    let node = a[i];
    assert forall|d: int|
        0 <= d < node.dependencies.len() && declared(
            b,
            #[trigger] node.dependencies[d],
        ) implies done.contains(node.dependencies[d]) by {
        lemma_same_declared(b, a, node.dependencies[d]);
    }
    assert(dependencies_placed(b, node, done));
    assert(b[j].path == path && dependencies_placed(b, b[j], done));
}

/// Lists that hold the same nodes have the same emission order by path.
proof fn lemma_same_emission(a: Seq<TypeNodeView>, b: Seq<TypeNodeView>, order: Seq<Seq<char>>)
    requires
        same_nodes(a, b),
        is_path_emission(a, order),
    ensures
        is_path_emission(b, order),
{
    assert forall|k: int| 0 <= k < order.len() implies path_next(
        b,
        order.take(k),
        #[trigger] order[k],
    ) by {
        assert(path_next(a, order.take(k), order[k]));
        lemma_same_ready(a, b, order.take(k), order[k]);
        assert forall|other: Seq<char>| path_ready(b, order.take(k), other) implies lex_le(
            order[k],
            other,
        ) by {
            lemma_same_ready(b, a, order.take(k), other);
        }
    }
    assert forall|other: Seq<char>| !path_ready(b, order, other) by {
        if path_ready(b, order, other) {
            lemma_same_ready(b, a, order, other);
        }
    }
}

/// Every position of `order` is that of a node.
pub open spec fn in_range(nodes: Seq<TypeNodeView>, order: Seq<int>) -> bool {
    forall|k: int| 0 <= k < order.len() ==> 0 <= #[trigger] order[k] < nodes.len()
}

/// Where all paths differ, a node is in an order exactly where its path is
/// among the order's paths.
proof fn lemma_paths_contain(nodes: Seq<TypeNodeView>, done: Seq<int>, j: int)
    requires
        distinct_paths(nodes),
        in_range(nodes, done),
        0 <= j < nodes.len(),
    ensures
        done.contains(j) <==> order_paths(nodes, done).contains(nodes[j].path),
{
    let paths = order_paths(nodes, done);
    if done.contains(j) {
        let k = choose|k: int| 0 <= k < done.len() && done[k] == j;
        assert(paths[k] == nodes[j].path);
    }
    if paths.contains(nodes[j].path) {
        let k = choose|k: int| 0 <= k < paths.len() && paths[k] == nodes[j].path;
        assert(0 <= done[k] < nodes.len());
        assert(done[k] == j);
    }
}

/// Where all paths differ, a node is ready exactly where its path is.
proof fn lemma_ready_paths(nodes: Seq<TypeNodeView>, done: Seq<int>, i: int)
    requires
        distinct_paths(nodes),
        in_range(nodes, done),
        0 <= i < nodes.len(),
    ensures
        is_ready(nodes, done, i) <==> path_ready(nodes, order_paths(nodes, done), nodes[i].path),
{
    let paths = order_paths(nodes, done);
    lemma_paths_contain(nodes, done, i);
    if is_ready(nodes, done, i) {
        assert forall|d: int|
            0 <= d < nodes[i].dependencies.len() && declared(
                nodes,
                #[trigger] nodes[i].dependencies[d],
            ) implies paths.contains(nodes[i].dependencies[d]) by {
            let dep = nodes[i].dependencies[d];
            let j = choose|j: int| 0 <= j < nodes.len() && nodes[j].path == dep;
            assert(depends_on(nodes, i, j));
            lemma_paths_contain(nodes, done, j);
        }
        assert(nodes[i].path == nodes[i].path && dependencies_placed(nodes, nodes[i], paths));
    }
    if path_ready(nodes, paths, nodes[i].path) {
        let w = choose|w: int|
            0 <= w < nodes.len() && nodes[w].path == nodes[i].path && dependencies_placed(
                nodes,
                nodes[w],
                paths,
            );
        assert(w == i);
        assert forall|j: int| depends_on(nodes, i, j) implies done.contains(j) by {
            let d = choose|d: int|
                0 <= d < nodes[i].dependencies.len() && nodes[i].dependencies[d] == nodes[j].path;
            assert(declared(nodes, nodes[i].dependencies[d]));
            lemma_paths_contain(nodes, done, j);
        }
    }
}

/// Where all paths differ, the emission order, read as paths, is the
/// emission order by path.
proof fn lemma_emission_paths(nodes: Seq<TypeNodeView>)
    requires
        distinct_paths(nodes),
    ensures
        is_path_emission(nodes, order_paths(nodes, emission(nodes))),
        in_range(nodes, emission(nodes)),
{
    let order = emission(nodes);
    let paths = order_paths(nodes, order);
    let empty = Seq::<int>::empty();
    lemma_emit_in_turn(nodes, empty);
    lemma_emit_from(nodes, empty);
    lemma_none_ready(nodes, order);
    assert forall|k: int| 0 <= k < order.len() implies 0 <= #[trigger] order[k] < nodes.len() by {
        assert(is_next(nodes, order.take(k), order[k]));
    }
    assert forall|k: int| 0 <= k < paths.len() implies path_next(
        nodes,
        paths.take(k),
        #[trigger] paths[k],
    ) by {
        let done = order.take(k);
        assert(paths.take(k) =~= order_paths(nodes, done));
        assert(is_next(nodes, done, order[k]));
        lemma_ready_paths(nodes, done, order[k]);
        assert forall|other: Seq<char>| path_ready(nodes, paths.take(k), other) implies lex_le(
            paths[k],
            other,
        ) by {
            let w = choose|w: int|
                0 <= w < nodes.len() && nodes[w].path == other && dependencies_placed(
                    nodes,
                    nodes[w],
                    paths.take(k),
                );
            lemma_ready_paths(nodes, done, w);
        }
    }
    assert forall|other: Seq<char>| !path_ready(nodes, paths, other) by {
        if path_ready(nodes, paths, other) {
            let w = choose|w: int|
                0 <= w < nodes.len() && nodes[w].path == other && dependencies_placed(
                    nodes,
                    nodes[w],
                    paths,
                );
            lemma_ready_paths(nodes, order, w);
        }
    }
}

/// In lists that hold the same nodes, each under a path of its own, a path
/// belongs to the same module.
proof fn lemma_same_module_of(a: Seq<TypeNodeView>, b: Seq<TypeNodeView>, path: Seq<char>)
    requires
        same_nodes(a, b),
        distinct_paths(a),
        distinct_paths(b),
    ensures
        module_of(a, path) == module_of(b, path),
{
    lemma_find_node(a, path, 0);
    lemma_find_node(b, path, 0);
    match find_node(a, path, 0) {
        Some(i) => {
            let j = lemma_position_in(a, b, i);
            assert(b[j].path == path);
        },
        None => {
            if find_node(b, path, 0) is Some {
                let j = find_node(b, path, 0)->0;
                let i = lemma_position_in(b, a, j);
                assert(a[i].path == path);
            }
        },
    }
}

/// In lists that hold the same nodes, the references of a type import the
/// same.
proof fn lemma_same_node_imports(
    a: Seq<TypeNodeView>,
    b: Seq<TypeNodeView>,
    manifest: Seq<ModuleImportsView>,
    module: Seq<char>,
    deps: Seq<Seq<char>>,
)
    requires
        same_nodes(a, b),
        distinct_paths(a),
        distinct_paths(b),
    ensures
        node_imports(a, manifest, module, deps) == node_imports(b, manifest, module, deps),
    decreases deps.len(),
{
    if deps.len() > 0 {
        lemma_same_module_of(a, b, deps[0]);
        let source = module_of(a, deps[0]);
        let next = if source != module {
            add_import(manifest, module, source, last_segment(deps[0]))
        } else {
            manifest
        };
        lemma_same_node_imports(a, b, next, module, deps.skip(1));
    }
}

/// In lists that hold the same nodes, orders with the same paths import the
/// same.
proof fn lemma_same_order_imports(
    a: Seq<TypeNodeView>,
    b: Seq<TypeNodeView>,
    manifest: Seq<ModuleImportsView>,
    first: Seq<int>,
    second: Seq<int>,
)
    requires
        same_nodes(a, b),
        distinct_paths(a),
        distinct_paths(b),
        in_range(a, first),
        in_range(b, second),
        order_paths(a, first) == order_paths(b, second),
    ensures
        order_imports(a, manifest, first) == order_imports(b, manifest, second),
    decreases first.len(),
{
    assert(order_paths(a, first).len() == first.len());
    assert(order_paths(b, second).len() == second.len());
    if first.len() > 0 {
        let i = first[0];
        let j = second[0];
        assert(order_paths(a, first)[0] == a[i].path);
        assert(order_paths(b, second)[0] == b[j].path);
        let w = lemma_position_in(a, b, i);
        assert(w == j);
        lemma_same_node_imports(a, b, manifest, a[i].module, a[i].dependencies);
        assert(order_paths(a, first.skip(1)) =~= order_paths(a, first).skip(1));
        assert(order_paths(b, second.skip(1)) =~= order_paths(b, second).skip(1));
        lemma_same_order_imports(
            a,
            b,
            node_imports(a, manifest, a[i].module, a[i].dependencies),
            first.skip(1),
            second.skip(1),
        );
    }
}

/// Where all paths differ, an order holds every node exactly where its
/// paths hold every declared path.
proof fn lemma_complete_paths(nodes: Seq<TypeNodeView>, order: Seq<int>)
    requires
        distinct_paths(nodes),
        in_range(nodes, order),
    ensures
        is_complete(nodes, order) <==> forall|path: Seq<char>|
            declared(nodes, path) ==> order_paths(nodes, order).contains(path),
{
    let paths = order_paths(nodes, order);
    if is_complete(nodes, order) {
        assert forall|path: Seq<char>| declared(nodes, path) implies paths.contains(path) by {
            let i = choose|i: int| 0 <= i < nodes.len() && nodes[i].path == path;
            lemma_paths_contain(nodes, order, i);
        }
    }
    if forall|path: Seq<char>| declared(nodes, path) ==> paths.contains(path) {
        assert forall|i: int| 0 <= i < nodes.len() implies order.contains(i) by {
            assert(declared(nodes, nodes[i].path));
            lemma_paths_contain(nodes, order, i);
        }
    }
}

/// Determinism: resolving does not depend on the order in which the
/// declarations are listed. Two lists that hold the same nodes, each under
/// a path of its own, resolve alike: both fail, or both succeed with the
/// same order and the same import manifest.
pub proof fn lemma_listing_order(a: Seq<TypeNodeView>, b: Seq<TypeNodeView>)
    requires
        same_nodes(a, b),
        distinct_paths(a),
        distinct_paths(b),
    ensures
        resolve_nodes(a) is Ok <==> resolve_nodes(b) is Ok,
        resolve_nodes(a) is Ok ==> resolve_nodes(a) == resolve_nodes(b),
{
    if first_duplicate(a) is Some {
        lemma_first_duplicate_found(a, 0);
    }
    if first_duplicate(b) is Some {
        lemma_first_duplicate_found(b, 0);
    }
    let first = emission(a);
    let second = emission(b);
    lemma_emission_paths(a);
    lemma_emission_paths(b);
    lemma_same_emission(a, b, order_paths(a, first));
    lemma_path_emission_unique(b, order_paths(a, first), order_paths(b, second));
    lemma_complete_paths(a, first);
    lemma_complete_paths(b, second);
    assert forall|path: Seq<char>| declared(a, path) == declared(b, path) by {
        if declared(a, path) {
            lemma_same_declared(a, b, path);
        }
        if declared(b, path) {
            lemma_same_declared(b, a, path);
        }
    }
    lemma_same_order_imports(a, b, Seq::empty(), first, second);
}

} // verus!
