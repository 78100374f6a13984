//! The grouping engine: partitions an ordered sequence of items into named
//! groups, one per target file.
//!
//! Type definitions open a group named after their derived file stem and
//! receive a copy of every use declaration in front of them. Functions,
//! macro definitions and pass-through items go to the group named after the
//! origin file. Implementation blocks are attached to the group of their
//! target type when one exists and fall back to the origin group otherwise,
//! so no item is ever dropped silently.

use vstd::multiset::Multiset;
use vstd::prelude::*;

use crate::item::{
    goes_to_origin, is_impl, is_import, is_type_def, views_of, ItemKind, ItemView, SourceItem,
};
use crate::stem::{file_stem, to_file_stem};
use crate::text::str_eq;

verus! {

/// The mathematical value of a group: its target file stem and the items
/// routed to it, in order.
pub struct GroupView {
    pub stem: Seq<char>,
    pub items: Seq<ItemView>,
}

/// One target file: its stem and the items destined for it, in order.
#[derive(Debug)]
pub struct Group {
    pub stem: String,
    pub items: Vec<SourceItem>,
}

impl View for Group {
    type V = GroupView;

    open spec fn view(&self) -> GroupView {
        GroupView { stem: self.stem@, items: views_of(self.items@) }
    }
}

/// The views of a sequence of groups.
pub open spec fn groups_view(g: Seq<Group>) -> Seq<GroupView> {
    g.map_values(|x: Group| x@)
}

/// The index of the first group with the given stem, or -1 when none has
/// it.
pub open spec fn find_group(gs: Seq<GroupView>, stem: Seq<char>) -> int
    decreases gs.len(),
{
    if gs.len() == 0 {
        -1
    } else if gs[0].stem == stem {
        0
    } else {
        let r = find_group(gs.drop_first(), stem);
        if r < 0 {
            -1
        } else {
            r + 1
        }
    }
}

/// Whether some group carries the given stem.
pub open spec fn has_group(gs: Seq<GroupView>, stem: Seq<char>) -> bool {
    find_group(gs, stem) >= 0
}

/// `find_group` returns the first index carrying the stem, or -1 when no
/// group carries it.
pub proof fn lemma_find_group(gs: Seq<GroupView>, stem: Seq<char>)
    ensures
        -1 <= find_group(gs, stem) < gs.len(),
        find_group(gs, stem) >= 0 ==> gs[find_group(gs, stem)].stem == stem,
        forall|j: int|
            0 <= j < (if find_group(gs, stem) >= 0 {
                find_group(gs, stem)
            } else {
                gs.len() as int
            }) ==> gs[j].stem != stem,
    decreases gs.len(),
{
    if gs.len() == 0 {
    } else if gs[0].stem == stem {
    } else {
        let sub = gs.drop_first();
        lemma_find_group(sub, stem);
        let rs = find_group(sub, stem);
        let r = find_group(gs, stem);
        if rs >= 0 {
            assert(gs[r] == sub[rs]);
            assert forall|j: int| 0 <= j < r implies gs[j].stem != stem by {
                if j > 0 {
                    assert(gs[j] == sub[j - 1]);
                }
            }
        } else {
            assert forall|j: int| 0 <= j < gs.len() implies gs[j].stem != stem by {
                if j > 0 {
                    assert(gs[j] == sub[j - 1]);
                }
            }
        }
    }
}

/// Appends items to the first group with the given stem, or opens a new
/// group at the end when none has it.
pub open spec fn append_to_group(gs: Seq<GroupView>, stem: Seq<char>, add: Seq<ItemView>) -> Seq<
    GroupView,
> {
    let i = find_group(gs, stem);
    if i >= 0 {
        gs.update(i, GroupView { stem: gs[i].stem, items: gs[i].items + add })
    } else {
        gs.push(GroupView { stem, items: add })
    }
}

/// The stem of the target file a named item is grouped under.
pub open spec fn group_stem_of(v: ItemView) -> Seq<char> {
    match v.name {
        Some(n) => file_stem(n),
        None => Seq::empty(),
    }
}

/// The use declarations of an item sequence, in order.
pub open spec fn imports_of(items: Seq<ItemView>) -> Seq<ItemView>
    decreases items.len(),
{
    if items.len() == 0 {
        Seq::empty()
    } else {
        let rest = imports_of(items.drop_last());
        if is_import(items.last()) {
            rest.push(items.last())
        } else {
            rest
        }
    }
}

/// First grouping pass over the suffix of `items` starting at `i`: type
/// definitions open or extend their own group, preceded by a copy of every
/// use declaration; functions, macros and pass-through items extend the
/// origin group; use declarations and implementation blocks are deferred.
pub open spec fn pass_types(
    items: Seq<ItemView>,
    origin: Seq<char>,
    uses: Seq<ItemView>,
    i: int,
    acc: Seq<GroupView>,
) -> Seq<GroupView>
    decreases items.len() - i,
{
    if i < 0 || i >= items.len() {
        acc
    } else {
        let v = items[i];
        let acc2 = if is_type_def(v) {
            append_to_group(acc, group_stem_of(v), uses.push(v))
        } else if goes_to_origin(v) {
            append_to_group(acc, origin, seq![v])
        } else {
            acc
        };
        pass_types(items, origin, uses, i + 1, acc2)
    }
}

/// Second grouping pass: each implementation block is appended to the group
/// of its target type when that group exists, and to the origin group
/// otherwise.
pub open spec fn pass_impls(
    items: Seq<ItemView>,
    origin: Seq<char>,
    i: int,
    acc: Seq<GroupView>,
) -> Seq<GroupView>
    decreases items.len() - i,
{
    if i < 0 || i >= items.len() {
        acc
    } else {
        let v = items[i];
        let acc2 = if is_impl(v) {
            let target = match v.name {
                Some(t) => Some(file_stem(t)),
                None => None,
            };
            match target {
                Some(t) => if has_group(acc, t) {
                    append_to_group(acc, t, seq![v])
                } else {
                    append_to_group(acc, origin, seq![v])
                },
                None => append_to_group(acc, origin, seq![v]),
            }
        } else {
            acc
        };
        pass_impls(items, origin, i + 1, acc2)
    }
}

/// Removes the origin group when it exists and ended up empty.
pub open spec fn drop_empty_origin(gs: Seq<GroupView>, origin: Seq<char>) -> Seq<GroupView> {
    let i = find_group(gs, origin);
    if i >= 0 && gs[i].items.len() == 0 {
        gs.remove(i)
    } else {
        gs
    }
}

/// The complete grouping of an item sequence for one origin file.
pub open spec fn grouped(items: Seq<ItemView>, origin: Seq<char>) -> Seq<GroupView> {
    let a = pass_types(items, origin, imports_of(items), 0, Seq::empty());
    let b = pass_impls(items, origin, 0, a);
    drop_empty_origin(b, origin)
}

/// Views of two concatenated item sequences concatenate.
proof fn lemma_views_of_concat(a: Seq<SourceItem>, b: Seq<SourceItem>)
    ensures
        views_of(a + b) == views_of(a) + views_of(b),
{
    assert(views_of(a + b) =~= views_of(a) + views_of(b));
}

/// The index of the first group carrying the given stem, when one does.
fn find_group_index(groups: &Vec<Group>, stem: &str) -> (r: Option<usize>)
    ensures
        match r {
            Some(j) => {
                &&& find_group(groups_view(groups@), stem@) == j as int
                &&& (j as int) < groups@.len()
                &&& groups_view(groups@)[j as int].stem == stem@
            },
            None => find_group(groups_view(groups@), stem@) == -1,
        },
{
    let ghost gv = groups_view(groups@);
    let mut j: usize = 0;
    while j < groups.len()
        invariant
            j <= groups@.len(),
            gv == groups_view(groups@),
            gv.len() == groups@.len(),
            forall|k: int| 0 <= k < j ==> gv[k].stem != stem@,
        decreases groups@.len() - j,
    {
        if str_eq(groups[j].stem.as_str(), stem) {
            proof {
                lemma_find_group(gv, stem@);
                let r = find_group(gv, stem@);
                assert(gv[j as int].stem == stem@);
                if r != j as int {
                    if r < 0 {
                        assert(gv[j as int].stem != stem@);
                    } else if r < j as int {
                        assert(gv[r].stem != stem@);
                    } else {
                        assert(gv[j as int].stem != stem@);
                    }
                }
            }
            return Some(j);
        }
        j = j + 1;
    }
    proof {
        lemma_find_group(gv, stem@);
    }
    None
}

/// Duplicates every item of a vector, preserving order and values.
fn duplicate_all(items: &Vec<SourceItem>) -> (r: Vec<SourceItem>)
    ensures
        views_of(r@) == views_of(items@),
{
    let mut r: Vec<SourceItem> = Vec::new();
    let mut i: usize = 0;
    while i < items.len()
        invariant
            i <= items@.len(),
            views_of(r@) == views_of(items@.subrange(0, i as int)),
        decreases items@.len() - i,
    {
        r.push(items[i].duplicate());
        proof {
            assert(views_of(items@.subrange(0, i + 1)) =~= views_of(
                items@.subrange(0, i as int),
            ).push(items@[i as int]@));
            assert(views_of(r@) =~= views_of(items@.subrange(0, i as int)).push(
                items@[i as int]@,
            ));
        }
        i = i + 1;
    }
    proof {
        assert(items@.subrange(0, items@.len() as int) =~= items@);
    }
    r
}

/// Appends the given items to the group with the given stem, opening the
/// group when it does not exist yet.
fn add_items_to_group(groups: &mut Vec<Group>, stem: String, add: Vec<SourceItem>)
    ensures
        groups_view(final(groups)@) == append_to_group(
            groups_view(old(groups)@),
            stem@,
            views_of(add@),
        ),
{
    let ghost gv = groups_view(groups@);
    let ghost addv = views_of(add@);
    match find_group_index(groups, stem.as_str()) {
        Some(j) => {
            let ghost pre = groups@;
            let mut grp = groups.remove(j);
            let ghost old_items = grp.items@;
            let mut add = add;
            let ghost added = add@;
            grp.items.append(&mut add);
            proof {
                lemma_views_of_concat(old_items, added);
            }
            let ghost grp2 = grp;
            groups.insert(j, grp);
            proof {
                let target = append_to_group(gv, stem@, addv);
                assert(groups@.len() == pre.len());
                assert forall|k: int| 0 <= k < groups@.len() implies groups_view(groups@)[k]
                    == target[k] by {
                    if k == j as int {
                        assert(groups@[k] == grp2);
                        assert(views_of(grp2.items@) == views_of(old_items) + addv);
                    } else {
                        assert(groups@[k] == pre[k]);
                    }
                }
                assert(groups_view(groups@) =~= target);
            }
        },
        None => {
            groups.push(Group { stem, items: add });
            proof {
                assert(groups_view(groups@) =~= append_to_group(gv, stem@, addv));
            }
        },
    }
}

/// Collects a copy of every use declaration, preserving order.
pub fn collect_use_statements(items: &Vec<SourceItem>) -> (r: Vec<SourceItem>)
    ensures
        views_of(r@) == imports_of(views_of(items@)),
{
    let mut r: Vec<SourceItem> = Vec::new();
    let mut i: usize = 0;
    while i < items.len()
        invariant
            i <= items@.len(),
            views_of(r@) == imports_of(views_of(items@.subrange(0, i as int))),
        decreases items@.len() - i,
    {
        let ghost pre = views_of(items@.subrange(0, i as int));
        let ghost post = views_of(items@.subrange(0, i + 1));
        proof {
            assert(post.drop_last() =~= pre);
            assert(post.last() == items@[i as int]@);
        }
        if items[i].kind() == ItemKind::Import {
            r.push(items[i].duplicate());
            proof {
                assert(views_of(r@) =~= imports_of(pre).push(items@[i as int]@));
            }
        }
        i = i + 1;
    }
    proof {
        assert(items@.subrange(0, items@.len() as int) =~= items@);
    }
    r
}

/// First grouping pass: routes type definitions to their own groups, with
/// a copy of every use declaration in front, and functions, macros and
/// pass-through items to the origin group.
fn group_type_definitions(
    groups: &mut Vec<Group>,
    items: &Vec<SourceItem>,
    uses: &Vec<SourceItem>,
    origin_stem: &str,
)
    ensures
        groups_view(final(groups)@) == pass_types(
            views_of(items@),
            origin_stem@,
            views_of(uses@),
            0,
            groups_view(old(groups)@),
        ),
{
    let ghost itemsv = views_of(items@);
    let ghost usesv = views_of(uses@);
    let ghost goal = pass_types(itemsv, origin_stem@, usesv, 0, groups_view(groups@));
    let mut i: usize = 0;
    while i < items.len()
        invariant
            i <= items@.len(),
            itemsv == views_of(items@),
            usesv == views_of(uses@),
            itemsv.len() == items@.len(),
            pass_types(itemsv, origin_stem@, usesv, i as int, groups_view(groups@)) == goal,
        decreases items@.len() - i,
    {
        let item = &items[i];
        let k = item.kind();
        if k == ItemKind::Struct || k == ItemKind::Enum || k == ItemKind::Trait || k
            == ItemKind::TypeAlias || k == ItemKind::Union {
            let target = match item.name() {
                Some(n) => to_file_stem(n.as_str()),
                None => String::new(),
            };
            let mut add = duplicate_all(uses);
            add.push(item.duplicate());
            proof {
                assert(views_of(add@) =~= usesv.push(itemsv[i as int]));
            }
            add_items_to_group(groups, target, add);
        } else if k == ItemKind::Function || k == ItemKind::MacroDef || k == ItemKind::Unclassified
            || k == ItemKind::Opaque {
            let mut add: Vec<SourceItem> = Vec::new();
            add.push(item.duplicate());
            proof {
                assert(views_of(add@) =~= seq![itemsv[i as int]]);
            }
            add_items_to_group(groups, crate::text::str_to_string(origin_stem), add);
        }
        i = i + 1;
    }
}

/// Second grouping pass: attaches each implementation block to the group
/// of its target type, falling back to the origin group when no such group
/// exists or the target cannot be resolved.
fn assign_impl_blocks_to_types(
    groups: &mut Vec<Group>,
    items: &Vec<SourceItem>,
    origin_stem: &str,
)
    ensures
        groups_view(final(groups)@) == pass_impls(
            views_of(items@),
            origin_stem@,
            0,
            groups_view(old(groups)@),
        ),
{
    let ghost itemsv = views_of(items@);
    let ghost goal = pass_impls(itemsv, origin_stem@, 0, groups_view(groups@));
    let mut i: usize = 0;
    while i < items.len()
        invariant
            i <= items@.len(),
            itemsv == views_of(items@),
            itemsv.len() == items@.len(),
            pass_impls(itemsv, origin_stem@, i as int, groups_view(groups@)) == goal,
        decreases items@.len() - i,
    {
        let item = &items[i];
        if item.kind() == ItemKind::ImplBlock {
            let mut add: Vec<SourceItem> = Vec::new();
            add.push(item.duplicate());
            proof {
                assert(views_of(add@) =~= seq![itemsv[i as int]]);
            }
            match item.name() {
                Some(t) => {
                    let target = to_file_stem(t.as_str());
                    if find_group_index(groups, target.as_str()).is_some() {
                        add_items_to_group(groups, target, add);
                    } else {
                        add_items_to_group(groups, crate::text::str_to_string(origin_stem), add);
                    }
                },
                None => {
                    add_items_to_group(groups, crate::text::str_to_string(origin_stem), add);
                },
            }
        }
        i = i + 1;
    }
}

/// Removes the origin group when it exists and ended up empty.
fn cleanup_empty_original_file_entry(groups: &mut Vec<Group>, origin_stem: &str)
    ensures
        groups_view(final(groups)@) == drop_empty_origin(groups_view(old(groups)@), origin_stem@),
{
    let ghost gv = groups_view(groups@);
    match find_group_index(groups, origin_stem) {
        Some(j) => {
            if groups[j].items.len() == 0 {
                groups.remove(j);
                proof {
                    assert(groups_view(groups@) =~= gv.remove(j as int));
                }
            }
        },
        None => {},
    }
}

/// All items routed to any group, in group order.
pub open spec fn contents_of(gs: Seq<GroupView>) -> Seq<ItemView>
    decreases gs.len(),
{
    if gs.len() == 0 {
        Seq::empty()
    } else {
        gs[0].items + contents_of(gs.drop_first())
    }
}

/// The items the first grouping pass routes somewhere: everything except
/// use declarations and implementation blocks, from index `i` on.
pub open spec fn routed_by_types_pass(items: Seq<ItemView>, i: int) -> Multiset<ItemView>
    decreases items.len() - i,
{
    if i < 0 || i >= items.len() {
        Multiset::empty()
    } else {
        let rest = routed_by_types_pass(items, i + 1);
        if is_type_def(items[i]) || goes_to_origin(items[i]) {
            rest.insert(items[i])
        } else {
            rest
        }
    }
}

/// The implementation blocks of an item sequence, from index `i` on.
pub open spec fn impls_of(items: Seq<ItemView>, i: int) -> Multiset<ItemView>
    decreases items.len() - i,
{
    if i < 0 || i >= items.len() {
        Multiset::empty()
    } else {
        let rest = impls_of(items, i + 1);
        if is_impl(items[i]) {
            rest.insert(items[i])
        } else {
            rest
        }
    }
}

/// Concatenation turns into multiset addition.
proof fn lemma_to_multiset_concat<A>(a: Seq<A>, b: Seq<A>)
    ensures
        (a + b).to_multiset() == a.to_multiset().add(b.to_multiset()),
    decreases b.len(),
{
    broadcast use vstd::seq_lib::group_to_multiset_ensures;
    broadcast use vstd::multiset::group_multiset_axioms;

    if b.len() == 0 {
        assert(a + b =~= a);
        assert(b.to_multiset() =~= Multiset::<A>::empty());
        assert(a.to_multiset().add(Multiset::<A>::empty()) =~= a.to_multiset());
    } else {
        lemma_to_multiset_concat(a, b.drop_last());
        assert(a + b =~= (a + b.drop_last()).push(b.last()));
        assert(b =~= b.drop_last().push(b.last()));
        assert(a.to_multiset().add(b.drop_last().to_multiset()).insert(b.last())
            =~= a.to_multiset().add(b.drop_last().to_multiset().insert(b.last())));
    }
}

/// Appending a group at the end appends its items to the contents.
proof fn lemma_contents_push(gs: Seq<GroupView>, g: GroupView)
    ensures
        contents_of(gs.push(g)) == contents_of(gs) + g.items,
    decreases gs.len(),
{
    if gs.len() == 0 {
        let p = gs.push(g);
        assert(p[0] == g);
        assert(p.drop_first() =~= Seq::<GroupView>::empty());
        assert(contents_of(p.drop_first()) == Seq::<ItemView>::empty());
        assert(contents_of(p) == g.items + Seq::<ItemView>::empty());
        assert(g.items + Seq::<ItemView>::empty() =~= g.items);
        assert(contents_of(gs) + g.items =~= g.items);
    } else {
        lemma_contents_push(gs.drop_first(), g);
        assert(gs.push(g).drop_first() =~= gs.drop_first().push(g));
        assert(gs[0].items + (contents_of(gs.drop_first()) + g.items) =~= (gs[0].items
            + contents_of(gs.drop_first())) + g.items);
    }
}

/// Extending the items of one group adds exactly those items to the
/// contents, as a multiset.
proof fn lemma_contents_update_ms(gs: Seq<GroupView>, i: int, add: Seq<ItemView>)
    requires
        0 <= i < gs.len(),
    ensures
        contents_of(
            gs.update(i, GroupView { stem: gs[i].stem, items: gs[i].items + add }),
        ).to_multiset() == contents_of(gs).to_multiset().add(add.to_multiset()),
    decreases gs.len(),
{
    broadcast use vstd::multiset::group_multiset_axioms;

    let g2 = GroupView { stem: gs[i].stem, items: gs[i].items + add };
    let upd = gs.update(i, g2);
    if i == 0 {
        assert(upd.drop_first() =~= gs.drop_first());
        assert(contents_of(upd) == (gs[0].items + add) + contents_of(gs.drop_first()));
        lemma_to_multiset_concat(gs[0].items + add, contents_of(gs.drop_first()));
        lemma_to_multiset_concat(gs[0].items, add);
        lemma_to_multiset_concat(gs[0].items, contents_of(gs.drop_first()));
        assert(contents_of(upd).to_multiset() =~= contents_of(gs).to_multiset().add(
            add.to_multiset(),
        ));
    } else {
        assert(upd.drop_first() =~= gs.drop_first().update(i - 1, g2));
        assert(gs.drop_first()[i - 1] == gs[i]);
        lemma_contents_update_ms(gs.drop_first(), i - 1, add);
        lemma_to_multiset_concat(gs[0].items, contents_of(upd.drop_first()));
        lemma_to_multiset_concat(gs[0].items, contents_of(gs.drop_first()));
        assert(contents_of(upd).to_multiset() =~= contents_of(gs).to_multiset().add(
            add.to_multiset(),
        ));
    }
}

/// Routing items to a group adds exactly those items to the contents, as a
/// multiset.
proof fn lemma_contents_append_to_group_ms(gs: Seq<GroupView>, stem: Seq<char>, add: Seq<ItemView>)
    ensures
        contents_of(append_to_group(gs, stem, add)).to_multiset() == contents_of(
            gs,
        ).to_multiset().add(add.to_multiset()),
{
    broadcast use vstd::multiset::group_multiset_axioms;

    lemma_find_group(gs, stem);
    let i = find_group(gs, stem);
    if i >= 0 {
        lemma_contents_update_ms(gs, i, add);
    } else {
        lemma_contents_push(gs, GroupView { stem, items: add });
        lemma_to_multiset_concat(contents_of(gs), add);
    }
}

/// The first grouping pass adds exactly the items it routes, as a
/// multiset, when there are no use declarations to copy.
proof fn lemma_pass_types_ms(
    items: Seq<ItemView>,
    origin: Seq<char>,
    i: int,
    acc: Seq<GroupView>,
)
    requires
        0 <= i <= items.len(),
    ensures
        contents_of(pass_types(items, origin, Seq::empty(), i, acc)).to_multiset() == contents_of(
            acc,
        ).to_multiset().add(routed_by_types_pass(items, i)),
    decreases items.len() - i,
{
    broadcast use vstd::multiset::group_multiset_axioms;

    if i >= items.len() {
        assert(contents_of(acc).to_multiset().add(Multiset::empty()) =~= contents_of(
            acc,
        ).to_multiset());
    } else {
        let v = items[i];
        if is_type_def(v) {
            let acc2 = append_to_group(acc, group_stem_of(v), Seq::empty().push(v));
            lemma_contents_append_to_group_ms(acc, group_stem_of(v), Seq::empty().push(v));
            lemma_pass_types_ms(items, origin, i + 1, acc2);
            assert(Seq::empty().push(v).to_multiset() =~= Multiset::empty().insert(v)) by {
                broadcast use vstd::seq_lib::group_to_multiset_ensures;

                assert(Seq::<ItemView>::empty().to_multiset() =~= Multiset::empty());
            }
            assert(contents_of(acc).to_multiset().add(Multiset::empty().insert(v)).add(
                routed_by_types_pass(items, i + 1),
            ) =~= contents_of(acc).to_multiset().add(
                routed_by_types_pass(items, i + 1).insert(v),
            ));
        } else if goes_to_origin(v) {
            let acc2 = append_to_group(acc, origin, seq![v]);
            lemma_contents_append_to_group_ms(acc, origin, seq![v]);
            lemma_pass_types_ms(items, origin, i + 1, acc2);
            assert(seq![v].to_multiset() =~= Multiset::empty().insert(v)) by {
                broadcast use vstd::seq_lib::group_to_multiset_ensures;

                assert(seq![v].drop_last() =~= Seq::<ItemView>::empty());
                assert(seq![v] =~= Seq::<ItemView>::empty().push(v));
                assert(Seq::<ItemView>::empty().to_multiset() =~= Multiset::empty());
            }
            assert(contents_of(acc).to_multiset().add(Multiset::empty().insert(v)).add(
                routed_by_types_pass(items, i + 1),
            ) =~= contents_of(acc).to_multiset().add(
                routed_by_types_pass(items, i + 1).insert(v),
            ));
        } else {
            lemma_pass_types_ms(items, origin, i + 1, acc);
        }
    }
}

/// The second grouping pass adds exactly the implementation blocks, as a
/// multiset.
proof fn lemma_pass_impls_ms(items: Seq<ItemView>, origin: Seq<char>, i: int, acc: Seq<GroupView>)
    requires
        0 <= i <= items.len(),
    ensures
        contents_of(pass_impls(items, origin, i, acc)).to_multiset() == contents_of(
            acc,
        ).to_multiset().add(impls_of(items, i)),
    decreases items.len() - i,
{
    broadcast use vstd::multiset::group_multiset_axioms;

    if i >= items.len() {
        assert(contents_of(acc).to_multiset().add(Multiset::empty()) =~= contents_of(
            acc,
        ).to_multiset());
    } else {
        let v = items[i];
        if is_impl(v) {
            let t = match v.name {
                Some(t) => Some(file_stem(t)),
                None => None,
            };
            let key = match t {
                Some(t) => if has_group(acc, t) {
                    t
                } else {
                    origin
                },
                None => origin,
            };
            let acc2 = append_to_group(acc, key, seq![v]);
            assert(pass_impls(items, origin, i, acc) == pass_impls(items, origin, i + 1, acc2));
            lemma_contents_append_to_group_ms(acc, key, seq![v]);
            lemma_pass_impls_ms(items, origin, i + 1, acc2);
            assert(seq![v].to_multiset() =~= Multiset::empty().insert(v)) by {
                broadcast use vstd::seq_lib::group_to_multiset_ensures;

                assert(seq![v] =~= Seq::<ItemView>::empty().push(v));
                assert(Seq::<ItemView>::empty().to_multiset() =~= Multiset::empty());
            }
            assert(contents_of(acc).to_multiset().add(Multiset::empty().insert(v)).add(
                impls_of(items, i + 1),
            ) =~= contents_of(acc).to_multiset().add(impls_of(items, i + 1).insert(v)));
        } else {
            lemma_pass_impls_ms(items, origin, i + 1, acc);
        }
    }
}

/// Removing the empty origin group leaves the contents unchanged as a
/// multiset.
proof fn lemma_contents_remove_empty(gs: Seq<GroupView>, i: int)
    requires
        0 <= i < gs.len(),
        gs[i].items.len() == 0,
    ensures
        contents_of(gs.remove(i)).to_multiset() == contents_of(gs).to_multiset(),
    decreases gs.len(),
{
    broadcast use vstd::multiset::group_multiset_axioms;

    if i == 0 {
        assert(gs.remove(0) =~= gs.drop_first());
        assert(gs[0].items =~= Seq::<ItemView>::empty());
        assert(gs[0].items + contents_of(gs.drop_first()) =~= contents_of(gs.drop_first()));
    } else {
        assert(gs.remove(i).drop_first() =~= gs.drop_first().remove(i - 1));
        assert(gs.drop_first()[i - 1] == gs[i]);
        lemma_contents_remove_empty(gs.drop_first(), i - 1);
        assert(gs.remove(i)[0] == gs[0]);
        lemma_to_multiset_concat(gs[0].items, contents_of(gs.remove(i).drop_first()));
        lemma_to_multiset_concat(gs[0].items, contents_of(gs.drop_first()));
        assert(contents_of(gs.remove(i)).to_multiset() =~= contents_of(gs).to_multiset());
    }
}

/// Without use declarations, what the two passes route together is the
/// whole input.
proof fn lemma_routed_covers_all(items: Seq<ItemView>, i: int)
    requires
        0 <= i <= items.len(),
        forall|j: int| 0 <= j < items.len() ==> !is_import(items[j]),
    ensures
        routed_by_types_pass(items, i).add(impls_of(items, i)) == items.subrange(
            i,
            items.len() as int,
        ).to_multiset(),
    decreases items.len() - i,
{
    broadcast use vstd::multiset::group_multiset_axioms;
    broadcast use vstd::seq_lib::group_to_multiset_ensures;

    let suffix = items.subrange(i, items.len() as int);
    if i >= items.len() {
        assert(suffix =~= Seq::<ItemView>::empty());
        assert(Seq::<ItemView>::empty().to_multiset() =~= Multiset::empty());
        assert(Multiset::<ItemView>::empty().add(Multiset::empty())
            =~= Multiset::<ItemView>::empty());
    } else {
        let v = items[i];
        lemma_routed_covers_all(items, i + 1);
        let tail = items.subrange(i + 1, items.len() as int);
        assert(suffix =~= seq![v] + tail);
        lemma_to_multiset_concat(seq![v], tail);
        assert(seq![v].to_multiset() =~= Multiset::empty().insert(v)) by {
            assert(seq![v] =~= Seq::<ItemView>::empty().push(v));
            assert(Seq::<ItemView>::empty().to_multiset() =~= Multiset::empty());
        }
        assert(is_type_def(v) || goes_to_origin(v) || is_impl(v));
        if is_impl(v) {
            assert(routed_by_types_pass(items, i).add(impls_of(items, i))
                =~= suffix.to_multiset());
        } else {
            assert(routed_by_types_pass(items, i).add(impls_of(items, i))
                =~= suffix.to_multiset());
        }
    }
}

/// An input without use declarations has no imports to collect.
proof fn lemma_imports_of_empty(items: Seq<ItemView>)
    requires
        forall|j: int| 0 <= j < items.len() ==> !is_import(items[j]),
    ensures
        imports_of(items) == Seq::<ItemView>::empty(),
    decreases items.len(),
{
    if items.len() > 0 {
        lemma_imports_of_empty(items.drop_last());
    }
}

/// Grouping is a partition: for an input without use declarations, the
/// multiset union of all group contents is exactly the input multiset — no
/// item is lost and none is duplicated. (A use declaration is instead
/// copied in front of every type definition, so it can appear in several
/// groups.)
pub proof fn lemma_grouping_is_partition(items: Seq<ItemView>, origin: Seq<char>)
    requires
        forall|j: int| 0 <= j < items.len() ==> !is_import(items[j]),
    ensures
        contents_of(grouped(items, origin)).to_multiset() == items.to_multiset(),
{
    broadcast use vstd::multiset::group_multiset_axioms;

    lemma_imports_of_empty(items);
    let a = pass_types(items, origin, Seq::empty(), 0, Seq::empty());
    let b = pass_impls(items, origin, 0, a);
    lemma_pass_types_ms(items, origin, 0, Seq::empty());
    lemma_pass_impls_ms(items, origin, 0, a);
    lemma_routed_covers_all(items, 0);
    assert(contents_of(Seq::<GroupView>::empty()) == Seq::<ItemView>::empty());
    assert(Seq::<ItemView>::empty().to_multiset() =~= Multiset::<ItemView>::empty()) by {
        broadcast use vstd::seq_lib::group_to_multiset_ensures;

    }
    assert(items.subrange(0, items.len() as int) =~= items);
    assert(contents_of(b).to_multiset() =~= Multiset::<ItemView>::empty().add(
        routed_by_types_pass(items, 0),
    ).add(impls_of(items, 0)));
    assert(Multiset::<ItemView>::empty().add(routed_by_types_pass(items, 0)).add(
        impls_of(items, 0),
    ) =~= routed_by_types_pass(items, 0).add(impls_of(items, 0)));
    lemma_find_group(b, origin);
    let i = find_group(b, origin);
    if i >= 0 && b[i].items.len() == 0 {
        lemma_contents_remove_empty(b, i);
    }
}

/// Groups an item sequence by target file stem for one origin file.
///
/// Every type definition opens (or extends) the group of its derived file
/// stem and is preceded there by a copy of every use declaration of the
/// input; functions, macro definitions and pass-through items extend the
/// group named after the origin file; implementation blocks are attached to
/// the group of their target type and fall back to the origin group.
pub fn group_items_by_target_file(items: &Vec<SourceItem>, origin_stem: &str) -> (g: Vec<Group>)
    ensures
        groups_view(g@) == grouped(views_of(items@), origin_stem@),
{
    let mut groups: Vec<Group> = Vec::new();
    proof {
        assert(groups_view(groups@) =~= Seq::<GroupView>::empty());
    }
    let uses = collect_use_statements(items);
    group_type_definitions(&mut groups, items, &uses, origin_stem);
    assign_impl_blocks_to_types(&mut groups, items, origin_stem);
    cleanup_empty_original_file_entry(&mut groups, origin_stem);
    groups
}

} // verus!
