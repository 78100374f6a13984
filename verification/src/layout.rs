//! The layout strategist: decides how one source file is split into
//! target files.
//!
//! A file is classified once: `lib.rs` with at least one type definition
//! or function becomes a library root, `main.rs` with at least one type
//! definition or one function not named `main` becomes a binary root, and
//! everything else is a standard file. A standard file is split one file per group;
//! an entry-point file is split into a types (or models) sub-directory and
//! a logic sub-directory, each with its own module listing, and the root
//! file itself is rewritten with module declarations, a prelude block and
//! its leftover items.

use vstd::prelude::*;
use vstd::string::StrSliceExecFns;
use vstd::string::StringExecFns;

use crate::content::{
    build_macro_file_content, build_organized_file_content, build_root_file_content, file_text,
    macro_file_text, root_text,
};
use crate::group::{group_items_by_target_file, grouped, groups_view, Group, GroupView};
use crate::item::{is_impl, is_type_def, views_of, ItemKind, ItemView, SourceItem};
use crate::modfile::render_listing;
use crate::order::{sort_module_names, stem_le, strs_view};
use crate::text::{str_eq, str_to_string};

verus! {

/// How one source file is laid out.
#[derive(Clone, Copy, PartialEq, Eq, Structural, Debug)]
pub enum LayoutKind {
    StandardFile,
    LibraryRoot,
    BinaryRoot,
}

/// Whether an item belongs to the type bucket of an entry-point layout: a
/// type definition or an implementation block.
pub open spec fn is_type_item(v: ItemView) -> bool {
    is_type_def(v) || is_impl(v)
}

/// Whether an item is a function named `main`.
pub open spec fn is_main_fn(v: ItemView) -> bool {
    v.kind == ItemKind::Function && v.name == Some("main"@)
}

/// Whether any item is a type definition. Only type definitions — not
/// implementation blocks — trigger an entry-point layout.
pub open spec fn has_type_def(items: Seq<ItemView>) -> bool {
    exists|i: int| 0 <= i < items.len() && is_type_def(#[trigger] items[i])
}

/// Whether any item is a function.
pub open spec fn has_function(items: Seq<ItemView>) -> bool {
    exists|i: int| 0 <= i < items.len() && (#[trigger] items[i]).kind == ItemKind::Function
}

/// Whether any item is a function not named `main`.
pub open spec fn has_non_main_function(items: Seq<ItemView>) -> bool {
    exists|i: int|
        0 <= i < items.len() && (#[trigger] items[i]).kind == ItemKind::Function && !is_main_fn(
            items[i],
        )
}

/// The classification of a source file, computed once from its name and
/// its items.
pub open spec fn classify_spec(file_name: Seq<char>, items: Seq<ItemView>) -> LayoutKind {
    if file_name == "lib.rs"@ && (has_type_def(items) || has_function(items)) {
        LayoutKind::LibraryRoot
    } else if file_name == "main.rs"@ && (has_type_def(items) || has_non_main_function(items)) {
        LayoutKind::BinaryRoot
    } else {
        LayoutKind::StandardFile
    }
}

/// The stem of a file name: the name without its `.rs` extension.
pub open spec fn origin_stem_of(file_name: Seq<char>) -> Seq<char> {
    if file_name.len() >= 3 && file_name.subrange(
        file_name.len() - 3,
        file_name.len() as int,
    ) == ".rs"@ {
        file_name.subrange(0, file_name.len() - 3)
    } else {
        file_name
    }
}

/// The file name of a stem.
pub open spec fn file_name_of(stem: Seq<char>) -> Seq<char> {
    stem + ".rs"@
}

/// One planned output file: the path it is written to, as segments
/// relative to the directory of the file being split, and its full text.
#[derive(Debug)]
pub struct PlannedFile {
    pub path: Vec<String>,
    pub content: String,
}

/// The mathematical value of a planned file.
pub struct PlannedFileView {
    pub path: Seq<Seq<char>>,
    pub content: Seq<char>,
}

impl View for PlannedFile {
    type V = PlannedFileView;

    open spec fn view(&self) -> PlannedFileView {
        PlannedFileView { path: strs_view(self.path@), content: self.content@ }
    }
}

/// The views of a sequence of planned files.
pub open spec fn plans_view(s: Seq<PlannedFile>) -> Seq<PlannedFileView> {
    s.map_values(|x: PlannedFile| x@)
}

/// The whole outcome of laying out one source file: the files to write,
/// and, for a standard split that produced more than one file, the stems
/// to merge into the directory's module listing.
#[derive(Debug)]
pub struct SplitPlan {
    pub files: Vec<PlannedFile>,
    pub merge_stems: Option<Vec<String>>,
}

/// One planned file per group: the group's stem names the file, the
/// group's items are its content.
pub open spec fn group_files_spec(gs: Seq<GroupView>, dir: Seq<Seq<char>>) -> Seq<
    PlannedFileView,
> {
    gs.map_values(
        |g: GroupView|
            PlannedFileView { path: dir.push(file_name_of(g.stem)), content: file_text(g.items) },
    )
}

/// The stems of a sequence of groups, in order.
pub open spec fn stems_of(gs: Seq<GroupView>) -> Seq<Seq<char>> {
    gs.map_values(|g: GroupView| g.stem)
}

/// The stems of the groups from index `i` on, without the origin stem.
pub open spec fn stems_except(gs: Seq<GroupView>, origin: Seq<char>, i: int) -> Seq<Seq<char>>
    decreases gs.len() - i,
{
    if i < 0 || i >= gs.len() {
        Seq::empty()
    } else {
        let rest = stems_except(gs, origin, i + 1);
        if gs[i].stem == origin {
            rest
        } else {
            seq![gs[i].stem] + rest
        }
    }
}

/// The items of the logic bucket that go into the shared functions file:
/// functions, and anonymous macro definitions as a fallback.
pub open spec fn functions_list(logic: Seq<ItemView>) -> Seq<ItemView>
    decreases logic.len(),
{
    if logic.len() == 0 {
        Seq::empty()
    } else {
        let rest = functions_list(logic.drop_last());
        if logic.last().kind == ItemKind::Function || (logic.last().kind == ItemKind::MacroDef
            && logic.last().name is None) {
            rest.push(logic.last())
        } else {
            rest
        }
    }
}

/// One planned file per named macro definition, from index `i` on.
pub open spec fn macro_files_spec(logic: Seq<ItemView>, dir: Seq<Seq<char>>, i: int) -> Seq<
    PlannedFileView,
>
    decreases logic.len() - i,
{
    if i < 0 || i >= logic.len() {
        Seq::empty()
    } else {
        let rest = macro_files_spec(logic, dir, i + 1);
        if logic[i].kind == ItemKind::MacroDef && logic[i].name is Some {
            seq![
                PlannedFileView {
                    path: dir.push(file_name_of(logic[i].name->Some_0)),
                    content: macro_file_text(logic[i]),
                },
            ] + rest
        } else {
            rest
        }
    }
}

/// The names of the named macro definitions, from index `i` on.
pub open spec fn macro_stems(logic: Seq<ItemView>, i: int) -> Seq<Seq<char>>
    decreases logic.len() - i,
{
    if i < 0 || i >= logic.len() {
        Seq::empty()
    } else {
        let rest = macro_stems(logic, i + 1);
        if logic[i].kind == ItemKind::MacroDef && logic[i].name is Some {
            seq![logic[i].name->Some_0] + rest
        } else {
            rest
        }
    }
}

/// The items of the type bucket, in order.
pub open spec fn type_bucket(items: Seq<ItemView>) -> Seq<ItemView>
    decreases items.len(),
{
    if items.len() == 0 {
        Seq::empty()
    } else {
        let rest = type_bucket(items.drop_last());
        if is_type_item(items.last()) {
            rest.push(items.last())
        } else {
            rest
        }
    }
}

/// Whether an item belongs to the logic bucket: a function — except, for
/// a binary root, the one named `main` — or a macro definition.
pub open spec fn is_logic_item(v: ItemView, exempt_main: bool) -> bool {
    (v.kind == ItemKind::Function && !(exempt_main && is_main_fn(v))) || v.kind
        == ItemKind::MacroDef
}

/// The items of the logic bucket, in order.
pub open spec fn logic_bucket(items: Seq<ItemView>, exempt_main: bool) -> Seq<ItemView>
    decreases items.len(),
{
    if items.len() == 0 {
        Seq::empty()
    } else {
        let rest = logic_bucket(items.drop_last(), exempt_main);
        if is_logic_item(items.last(), exempt_main) {
            rest.push(items.last())
        } else {
            rest
        }
    }
}

/// The items that stay in the rewritten root file, in order.
pub open spec fn other_bucket(items: Seq<ItemView>, exempt_main: bool) -> Seq<ItemView>
    decreases items.len(),
{
    if items.len() == 0 {
        Seq::empty()
    } else {
        let rest = other_bucket(items.drop_last(), exempt_main);
        if !is_type_item(items.last()) && !is_logic_item(items.last(), exempt_main) {
            rest.push(items.last())
        } else {
            rest
        }
    }
}

/// The planned files of a standard split: one file per group, next to the
/// file being split.
pub open spec fn standard_files_spec(items: Seq<ItemView>, origin: Seq<char>) -> Seq<
    PlannedFileView,
> {
    group_files_spec(grouped(items, origin), Seq::empty())
}

/// The module stems a standard split asks to merge into the directory's
/// listing: the stems of all groups but the origin, when more than one
/// file was produced.
pub open spec fn standard_merge_spec(items: Seq<ItemView>, origin: Seq<char>) -> Option<
    Seq<Seq<char>>,
> {
    let gs = grouped(items, origin);
    if gs.len() > 1 {
        Some(stems_except(gs, origin, 0))
    } else {
        None
    }
}

/// The name of the types sub-directory of an entry-point layout.
pub open spec fn sub_name(kind: LayoutKind) -> Seq<char> {
    if kind == LayoutKind::BinaryRoot {
        "models"@
    } else {
        "types"@
    }
}

/// The planned files of an entry-point split: the grouped type items in
/// their sub-directory with its listing, the logic items in the logic
/// sub-directory with its listing, and the rewritten root file.
pub open spec fn root_files_spec(
    items: Seq<ItemView>,
    file_name: Seq<char>,
    kind: LayoutKind,
) -> Seq<PlannedFileView> {
    let origin = origin_stem_of(file_name);
    let sub = sub_name(kind);
    let exempt_main = kind == LayoutKind::BinaryRoot;
    let t = type_bucket(items);
    let l = logic_bucket(items, exempt_main);
    let o = other_bucket(items, exempt_main);
    let tg = grouped(t, origin);
    let type_files = if t.len() > 0 {
        group_files_spec(tg, seq![sub]) + seq![
            PlannedFileView {
                path: seq![sub, "mod.rs"@],
                content: render_listing(stems_of(tg).sort_by(stem_le())),
            },
        ]
    } else {
        Seq::empty()
    };
    let funcs = functions_list(l);
    let logic_stems = (if funcs.len() > 0 {
        seq!["functions"@]
    } else {
        Seq::empty()
    }) + macro_stems(l, 0);
    let logic_files = if l.len() > 0 {
        (if funcs.len() > 0 {
            seq![
                PlannedFileView {
                    path: seq!["logic"@, "functions.rs"@],
                    content: file_text(funcs),
                },
            ]
        } else {
            Seq::empty()
        }) + macro_files_spec(l, seq!["logic"@], 0) + (if logic_stems.len() > 0 {
            seq![
                PlannedFileView {
                    path: seq!["logic"@, "mod.rs"@],
                    content: render_listing(logic_stems.sort_by(stem_le())),
                },
            ]
        } else {
            Seq::empty()
        })
    } else {
        Seq::empty()
    };
    let root = PlannedFileView {
        path: seq![file_name],
        content: root_text(sub, t.len() > 0, l.len() > 0, o),
    };
    type_files + logic_files + seq![root]
}

/// The planned files of laying out one source file.
pub open spec fn plan_files_spec(file_name: Seq<char>, items: Seq<ItemView>) -> Seq<
    PlannedFileView,
> {
    let kind = classify_spec(file_name, items);
    if kind == LayoutKind::StandardFile {
        standard_files_spec(items, origin_stem_of(file_name))
    } else {
        root_files_spec(items, file_name, kind)
    }
}

/// The stems laying out one source file asks to merge into the
/// directory's module listing.
pub open spec fn plan_merge_spec(file_name: Seq<char>, items: Seq<ItemView>) -> Option<
    Seq<Seq<char>>,
> {
    if classify_spec(file_name, items) == LayoutKind::StandardFile {
        standard_merge_spec(items, origin_stem_of(file_name))
    } else {
        None
    }
}

/// The fixed folder and module names of one entry-point layout.
pub struct SpecialCaseConfig {
    pub types_folder: &'static str,
    pub logic_folder: &'static str,
    pub module_name: &'static str,
}

impl SpecialCaseConfig {
    /// The layout names of a library root: types live under `types`, and
    /// the root declares them as `mod types;`.
    pub fn lib_rs() -> (r: SpecialCaseConfig)
        ensures
            r.types_folder@ == "types"@,
            r.logic_folder@ == "logic"@,
            r.module_name@ == sub_name(LayoutKind::LibraryRoot),
    {
        SpecialCaseConfig { types_folder: "types", logic_folder: "logic", module_name: "types" }
    }

    /// The layout names of a binary root: types live under `models`, and
    /// the root declares them as `mod models;`.
    pub fn main_rs() -> (r: SpecialCaseConfig)
        ensures
            r.types_folder@ == "models"@,
            r.logic_folder@ == "logic"@,
            r.module_name@ == sub_name(LayoutKind::BinaryRoot),
    {
        SpecialCaseConfig { types_folder: "models", logic_folder: "logic", module_name: "models" }
    }
}

/// Classifies a source file by its name and items.
pub fn classify_file(file_name: &str, items: &Vec<SourceItem>) -> (r: LayoutKind)
    ensures
        r == classify_spec(file_name@, views_of(items@)),
{
    let ghost itemsv = views_of(items@);
    let mut any_type = false;
    let mut any_fn = false;
    let mut any_non_main_fn = false;
    let mut i: usize = 0;
    while i < items.len()
        invariant
            i <= items@.len(),
            itemsv == views_of(items@),
            itemsv.len() == items@.len(),
            any_type == exists|k: int| 0 <= k < i && is_type_def(#[trigger] itemsv[k]),
            any_fn == exists|k: int|
                0 <= k < i && (#[trigger] itemsv[k]).kind == ItemKind::Function,
            any_non_main_fn == exists|k: int|
                0 <= k < i && (#[trigger] itemsv[k]).kind == ItemKind::Function && !is_main_fn(
                    itemsv[k],
                ),
        decreases items@.len() - i,
    {
        let item = &items[i];
        let k = item.kind();
        if k == ItemKind::Struct || k == ItemKind::Enum || k == ItemKind::Trait || k
            == ItemKind::TypeAlias || k == ItemKind::Union {
            any_type = true;
            proof {
                assert(is_type_def(itemsv[i as int]));
            }
        }
        if k == ItemKind::Function {
            any_fn = true;
            let named_main = match item.name() {
                Some(n) => str_eq(n.as_str(), "main"),
                None => false,
            };
            if !named_main {
                any_non_main_fn = true;
                proof {
                    assert(itemsv[i as int].kind == ItemKind::Function && !is_main_fn(
                        itemsv[i as int],
                    ));
                }
            }
        }
        i = i + 1;
    }
    if str_eq(file_name, "lib.rs") && (any_type || any_fn) {
        LayoutKind::LibraryRoot
    } else if str_eq(file_name, "main.rs") && (any_type || any_non_main_fn) {
        LayoutKind::BinaryRoot
    } else {
        LayoutKind::StandardFile
    }
}

/// The file name without its `.rs` extension.
pub fn strip_rs_extension(file_name: &str) -> (r: String)
    ensures
        r@ == origin_stem_of(file_name@),
{
    let n = file_name.unicode_len();
    if n >= 3 {
        let a = file_name.get_char(n - 3);
        let b = file_name.get_char(n - 2);
        let c = file_name.get_char(n - 1);
        if a == '.' && b == 'r' && c == 's' {
            proof {
                reveal_strlit(".rs");
                assert(file_name@.subrange(n - 3, n as int) =~= ".rs"@);
            }
            let chars = crate::text::str_to_chars(file_name);
            let stem = crate::modfile::subvec(&chars, 0, n - 3);
            return crate::text::chars_to_string(&stem);
        }
        proof {
            reveal_strlit(".rs");
            if file_name@.subrange(n - 3, n as int) == ".rs"@ {
                assert(file_name@.subrange(n - 3, n as int)[0] == file_name@[n - 3]);
                assert(file_name@.subrange(n - 3, n as int)[1] == file_name@[n - 2]);
                assert(file_name@.subrange(n - 3, n as int)[2] == file_name@[n - 1]);
                assert(file_name@[n - 3] == '.');
                assert(file_name@[n - 2] == 'r');
                assert(file_name@[n - 1] == 's');
            }
        }
        return str_to_string(file_name);
    }
    str_to_string(file_name)
}

/// Whether an item belongs to the type bucket.
pub fn is_type_item_exec(item: &SourceItem) -> (r: bool)
    ensures
        r == is_type_item(item@),
{
    let k = item.kind();
    k == ItemKind::Struct || k == ItemKind::Enum || k == ItemKind::Trait || k
        == ItemKind::TypeAlias || k == ItemKind::Union || k == ItemKind::ImplBlock
}

/// Splits the items of an entry-point file into the type, logic and
/// leftover buckets.
pub fn categorize_items(items: &Vec<SourceItem>, exempt_main: bool) -> (r: (
    Vec<SourceItem>,
    Vec<SourceItem>,
    Vec<SourceItem>,
))
    ensures
        views_of(r.0@) == type_bucket(views_of(items@)),
        views_of(r.1@) == logic_bucket(views_of(items@), exempt_main),
        views_of(r.2@) == other_bucket(views_of(items@), exempt_main),
{
    let ghost itemsv = views_of(items@);
    let mut t: Vec<SourceItem> = Vec::new();
    let mut l: Vec<SourceItem> = Vec::new();
    let mut o: Vec<SourceItem> = Vec::new();
    let mut i: usize = 0;
    while i < items.len()
        invariant
            i <= items@.len(),
            itemsv == views_of(items@),
            itemsv.len() == items@.len(),
            views_of(t@) == type_bucket(itemsv.subrange(0, i as int)),
            views_of(l@) == logic_bucket(itemsv.subrange(0, i as int), exempt_main),
            views_of(o@) == other_bucket(itemsv.subrange(0, i as int), exempt_main),
        decreases items@.len() - i,
    {
        let ghost pre = itemsv.subrange(0, i as int);
        let ghost post = itemsv.subrange(0, i + 1);
        proof {
            assert(post.drop_last() =~= pre);
            assert(post.last() == itemsv[i as int]);
        }
        let item = &items[i];
        let k = item.kind();
        let is_logic = if k == ItemKind::Function {
            let named_main = match item.name() {
                Some(n) => str_eq(n.as_str(), "main"),
                None => false,
            };
            !(exempt_main && named_main)
        } else {
            k == ItemKind::MacroDef
        };
        if is_logic {
            l.push(item.duplicate());
            proof {
                assert(views_of(l@) =~= logic_bucket(pre, exempt_main).push(itemsv[i as int]));
            }
        } else if is_type_item_exec(item) {
            t.push(item.duplicate());
            proof {
                assert(views_of(t@) =~= type_bucket(pre).push(itemsv[i as int]));
            }
        } else {
            o.push(item.duplicate());
            proof {
                assert(views_of(o@) =~= other_bucket(pre, exempt_main).push(itemsv[i as int]));
            }
        }
        i = i + 1;
    }
    proof {
        assert(itemsv.subrange(0, itemsv.len() as int) =~= itemsv);
    }
    (t, l, o)
}

/// One planned file per group, inside the given directory.
fn plan_group_files(groups: &Vec<Group>, dir: &Vec<String>) -> (r: Vec<PlannedFile>)
    ensures
        plans_view(r@) == group_files_spec(groups_view(groups@), strs_view(dir@)),
{
    let ghost gv = groups_view(groups@);
    let mut r: Vec<PlannedFile> = Vec::new();
    let mut i: usize = 0;
    while i < groups.len()
        invariant
            i <= groups@.len(),
            gv == groups_view(groups@),
            gv.len() == groups@.len(),
            plans_view(r@) == group_files_spec(gv.subrange(0, i as int), strs_view(dir@)),
        decreases groups@.len() - i,
    {
        let mut path: Vec<String> = Vec::new();
        let mut d: usize = 0;
        while d < dir.len()
            invariant
                d <= dir@.len(),
                strs_view(path@) == strs_view(dir@).subrange(0, d as int),
            decreases dir@.len() - d,
        {
            path.push(dir[d].clone());
            proof {
                assert(strs_view(path@) =~= strs_view(dir@).subrange(0, d as int).push(
                    dir@[d as int]@,
                ));
                assert(strs_view(dir@).subrange(0, d + 1) =~= strs_view(dir@).subrange(
                    0,
                    d as int,
                ).push(dir@[d as int]@));
            }
            d = d + 1;
        }
        proof {
            assert(strs_view(dir@).subrange(0, dir@.len() as int) =~= strs_view(dir@));
        }
        let file_name = groups[i].stem.clone().concat(".rs");
        path.push(file_name);
        let content = build_organized_file_content(&groups[i].items);
        proof {
            assert(strs_view(path@) =~= strs_view(dir@).push(file_name_of(gv[i as int].stem)));
            assert(content@ == file_text(gv[i as int].items));
        }
        r.push(PlannedFile { path, content });
        proof {
            assert(gv.subrange(0, i + 1) =~= gv.subrange(0, i as int).push(gv[i as int]));
            assert(plans_view(r@) =~= group_files_spec(gv.subrange(0, i as int), strs_view(
                dir@,
            )).push(
                PlannedFileView {
                    path: strs_view(dir@).push(file_name_of(gv[i as int].stem)),
                    content: file_text(gv[i as int].items),
                },
            ));
            assert(group_files_spec(gv.subrange(0, i + 1), strs_view(dir@)) =~= group_files_spec(
                gv.subrange(0, i as int),
                strs_view(dir@),
            ).push(
                PlannedFileView {
                    path: strs_view(dir@).push(file_name_of(gv[i as int].stem)),
                    content: file_text(gv[i as int].items),
                },
            ));
        }
        i = i + 1;
    }
    proof {
        assert(gv.subrange(0, gv.len() as int) =~= gv);
    }
    r
}

/// The stems of the groups, in order.
fn collect_group_stems(groups: &Vec<Group>) -> (r: Vec<String>)
    ensures
        strs_view(r@) == stems_of(groups_view(groups@)),
{
    let ghost gv = groups_view(groups@);
    let mut r: Vec<String> = Vec::new();
    let mut i: usize = 0;
    while i < groups.len()
        invariant
            i <= groups@.len(),
            gv == groups_view(groups@),
            gv.len() == groups@.len(),
            strs_view(r@) == stems_of(gv.subrange(0, i as int)),
        decreases groups@.len() - i,
    {
        r.push(groups[i].stem.clone());
        proof {
            assert(gv.subrange(0, i + 1) =~= gv.subrange(0, i as int).push(gv[i as int]));
            assert(strs_view(r@) =~= stems_of(gv.subrange(0, i as int)).push(gv[i as int].stem));
            assert(stems_of(gv.subrange(0, i + 1)) =~= stems_of(gv.subrange(0, i as int)).push(
                gv[i as int].stem,
            ));
        }
        i = i + 1;
    }
    proof {
        assert(gv.subrange(0, gv.len() as int) =~= gv);
    }
    r
}

/// The stems of the groups, without the origin stem.
fn collect_stems_except(groups: &Vec<Group>, origin: &str) -> (r: Vec<String>)
    ensures
        strs_view(r@) == stems_except(groups_view(groups@), origin@, 0),
{
    let ghost gv = groups_view(groups@);
    let mut r: Vec<String> = Vec::new();
    let mut i: usize = 0;
    while i < groups.len()
        invariant
            i <= groups@.len(),
            gv == groups_view(groups@),
            gv.len() == groups@.len(),
            strs_view(r@) + stems_except(gv, origin@, i as int) == stems_except(gv, origin@, 0),
        decreases groups@.len() - i,
    {
        let ghost pre = strs_view(r@);
        if !str_eq(groups[i].stem.as_str(), origin) {
            r.push(groups[i].stem.clone());
            proof {
                assert(strs_view(r@) =~= pre.push(gv[i as int].stem));
                assert(strs_view(r@) + stems_except(gv, origin@, i + 1) =~= pre + (seq![
                    gv[i as int].stem,
                ] + stems_except(gv, origin@, i + 1)));
            }
        }
        i = i + 1;
    }
    proof {
        assert(strs_view(r@) + Seq::<Seq<char>>::empty() =~= strs_view(r@));
    }
    r
}

/// The functions file items of the logic bucket: every function, and
/// every anonymous macro definition as a fallback.
fn collect_functions(logic: &Vec<SourceItem>) -> (r: Vec<SourceItem>)
    ensures
        views_of(r@) == functions_list(views_of(logic@)),
{
    let ghost lv = views_of(logic@);
    let mut r: Vec<SourceItem> = Vec::new();
    let mut i: usize = 0;
    while i < logic.len()
        invariant
            i <= logic@.len(),
            lv == views_of(logic@),
            lv.len() == logic@.len(),
            views_of(r@) == functions_list(lv.subrange(0, i as int)),
        decreases logic@.len() - i,
    {
        let ghost pre = lv.subrange(0, i as int);
        let ghost post = lv.subrange(0, i + 1);
        proof {
            assert(post.drop_last() =~= pre);
            assert(post.last() == lv[i as int]);
        }
        let item = &logic[i];
        let k = item.kind();
        let take = if k == ItemKind::Function {
            true
        } else if k == ItemKind::MacroDef {
            item.name().is_none()
        } else {
            false
        };
        if take {
            r.push(item.duplicate());
            proof {
                assert(views_of(r@) =~= functions_list(pre).push(lv[i as int]));
            }
        }
        i = i + 1;
    }
    proof {
        assert(lv.subrange(0, lv.len() as int) =~= lv);
    }
    r
}

/// One planned file per named macro definition of the logic bucket, and
/// the macro names, in order.
fn plan_macro_files(logic: &Vec<SourceItem>, dir: &Vec<String>) -> (r: (
    Vec<PlannedFile>,
    Vec<String>,
))
    ensures
        plans_view(r.0@) == macro_files_spec(views_of(logic@), strs_view(dir@), 0),
        strs_view(r.1@) == macro_stems(views_of(logic@), 0),
{
    let ghost lv = views_of(logic@);
    let ghost dv = strs_view(dir@);
    let mut files: Vec<PlannedFile> = Vec::new();
    let mut names: Vec<String> = Vec::new();
    let mut i: usize = 0;
    while i < logic.len()
        invariant
            i <= logic@.len(),
            lv == views_of(logic@),
            dv == strs_view(dir@),
            lv.len() == logic@.len(),
            plans_view(files@) + macro_files_spec(lv, dv, i as int) == macro_files_spec(
                lv,
                dv,
                0,
            ),
            strs_view(names@) + macro_stems(lv, i as int) == macro_stems(lv, 0),
        decreases logic@.len() - i,
    {
        let ghost fpre = plans_view(files@);
        let ghost npre = strs_view(names@);
        let item = &logic[i];
        if item.kind() == ItemKind::MacroDef {
            match item.name() {
                Some(name) => {
                    let name_owned = name.clone();
                    let mut path: Vec<String> = Vec::new();
                    let mut d: usize = 0;
                    while d < dir.len()
                        invariant
                            d <= dir@.len(),
                            dv == strs_view(dir@),
                            strs_view(path@) == dv.subrange(0, d as int),
                        decreases dir@.len() - d,
                    {
                        path.push(dir[d].clone());
                        proof {
                            assert(strs_view(path@) =~= dv.subrange(0, d as int).push(
                                dir@[d as int]@,
                            ));
                            assert(dv.subrange(0, d + 1) =~= dv.subrange(0, d as int).push(
                                dir@[d as int]@,
                            ));
                        }
                        d = d + 1;
                    }
                    proof {
                        assert(dv.subrange(0, dv.len() as int) =~= dv);
                    }
                    path.push(name_owned.clone().concat(".rs"));
                    let content = build_macro_file_content(item);
                    proof {
                        assert(strs_view(path@) =~= dv.push(
                            file_name_of(lv[i as int].name->Some_0),
                        ));
                        assert(content@ == macro_file_text(lv[i as int]));
                    }
                    files.push(PlannedFile { path, content });
                    names.push(name_owned);
                    proof {
                        let pv = PlannedFileView {
                            path: dv.push(file_name_of(lv[i as int].name->Some_0)),
                            content: macro_file_text(lv[i as int]),
                        };
                        assert(plans_view(files@) =~= fpre.push(pv));
                        assert(plans_view(files@) + macro_files_spec(lv, dv, i + 1) =~= fpre + (
                        seq![pv] + macro_files_spec(lv, dv, i + 1)));
                        assert(strs_view(names@) =~= npre.push(lv[i as int].name->Some_0));
                        assert(strs_view(names@) + macro_stems(lv, i + 1) =~= npre + (seq![
                            lv[i as int].name->Some_0,
                        ] + macro_stems(lv, i + 1)));
                    }
                },
                None => {},
            }
        }
        i = i + 1;
    }
    proof {
        assert(plans_view(files@) + Seq::<PlannedFileView>::empty() =~= plans_view(files@));
        assert(strs_view(names@) + Seq::<Seq<char>>::empty() =~= strs_view(names@));
    }
    (files, names)
}

/// Lays out one source file: decides which target files are written with
/// which content, and which stems a standard split merges into the
/// directory's module listing.
#[verifier::rlimit(100)]
pub fn plan_split(file_name: &str, items: &Vec<SourceItem>) -> (r: SplitPlan)
    ensures
        plans_view(r.files@) == plan_files_spec(file_name@, views_of(items@)),
        match r.merge_stems {
            Some(v) => plan_merge_spec(file_name@, views_of(items@)) == Some(strs_view(v@)),
            None => plan_merge_spec(file_name@, views_of(items@)) is None,
        },
{
    let ghost itemsv = views_of(items@);
    let kind = classify_file(file_name, items);
    let origin = strip_rs_extension(file_name);
    if kind == LayoutKind::StandardFile {
        let groups = group_items_by_target_file(items, origin.as_str());
        let empty_dir: Vec<String> = Vec::new();
        proof {
            assert(strs_view(empty_dir@) =~= Seq::<Seq<char>>::empty());
        }
        let files = plan_group_files(&groups, &empty_dir);
        let merge_stems = if groups.len() > 1 {
            Some(collect_stems_except(&groups, origin.as_str()))
        } else {
            None
        };
        SplitPlan { files, merge_stems }
    } else {
        let exempt_main = kind == LayoutKind::BinaryRoot;
        let sub = if exempt_main {
            str_to_string("models")
        } else {
            str_to_string("types")
        };
        proof {
            assert(sub@ == sub_name(kind));
        }
        let (t, l, o) = categorize_items(items, exempt_main);
        let ghost tv = views_of(t@);
        let ghost lv = views_of(l@);
        let ghost ov = views_of(o@);
        let ghost originv = origin_stem_of(file_name@);
        let ghost subv = sub_name(kind);
        let ghost tgv = grouped(tv, originv);
        let ghost type_part = if tv.len() > 0 {
            group_files_spec(tgv, seq![subv]) + seq![
                PlannedFileView {
                    path: seq![subv, "mod.rs"@],
                    content: render_listing(stems_of(tgv).sort_by(stem_le())),
                },
            ]
        } else {
            Seq::<PlannedFileView>::empty()
        };
        let ghost funcsv = functions_list(lv);
        let ghost logic_stems_v = (if funcsv.len() > 0 {
            seq!["functions"@]
        } else {
            Seq::<Seq<char>>::empty()
        }) + macro_stems(lv, 0);
        let ghost logic_part = if lv.len() > 0 {
            (if funcsv.len() > 0 {
                seq![
                    PlannedFileView {
                        path: seq!["logic"@, "functions.rs"@],
                        content: file_text(funcsv),
                    },
                ]
            } else {
                Seq::<PlannedFileView>::empty()
            }) + macro_files_spec(lv, seq!["logic"@], 0) + (if logic_stems_v.len() > 0 {
                seq![
                    PlannedFileView {
                        path: seq!["logic"@, "mod.rs"@],
                        content: render_listing(logic_stems_v.sort_by(stem_le())),
                    },
                ]
            } else {
                Seq::<PlannedFileView>::empty()
            })
        } else {
            Seq::<PlannedFileView>::empty()
        };
        let mut files: Vec<PlannedFile> = Vec::new();
        if t.len() > 0 {
            let tg = group_items_by_target_file(&t, origin.as_str());
            let mut sub_dir: Vec<String> = Vec::new();
            sub_dir.push(sub.clone());
            proof {
                assert(strs_view(sub_dir@) =~= seq![subv]);
            }
            let mut type_files = plan_group_files(&tg, &sub_dir);
            let stems = collect_group_stems(&tg);
            let sorted = sort_module_names(stems);
            let listing = crate::modfile::render_module_listing(&sorted);
            let mut mod_path: Vec<String> = Vec::new();
            mod_path.push(sub.clone());
            mod_path.push(str_to_string("mod.rs"));
            let ghost before_push = plans_view(type_files@);
            proof {
                assert(strs_view(mod_path@) =~= seq![subv, "mod.rs"@]);
                assert(listing@ == render_listing(stems_of(tgv).sort_by(stem_le())));
            }
            type_files.push(PlannedFile { path: mod_path, content: listing });
            proof {
                let listing_pv = PlannedFileView {
                    path: seq![subv, "mod.rs"@],
                    content: render_listing(stems_of(tgv).sort_by(stem_le())),
                };
                assert(plans_view(type_files@) =~= before_push.push(listing_pv));
                assert(plans_view(type_files@) =~= type_part);
            }
            files.append(&mut type_files);
            proof {
                assert(plans_view(files@) =~= type_part);
            }
        } else {
            proof {
                assert(plans_view(files@) =~= type_part);
            }
        }
        if l.len() > 0 {
            let funcs = collect_functions(&l);
            let mut logic_dir: Vec<String> = Vec::new();
            logic_dir.push(str_to_string("logic"));
            proof {
                assert(strs_view(logic_dir@) =~= seq!["logic"@]);
            }
            let ghost funcs_part = if funcsv.len() > 0 {
                seq![
                    PlannedFileView {
                        path: seq!["logic"@, "functions.rs"@],
                        content: file_text(funcsv),
                    },
                ]
            } else {
                Seq::<PlannedFileView>::empty()
            };
            if funcs.len() > 0 {
                let fcontent = build_organized_file_content(&funcs);
                let mut fpath: Vec<String> = Vec::new();
                fpath.push(str_to_string("logic"));
                fpath.push(str_to_string("functions.rs"));
                proof {
                    assert(strs_view(fpath@) =~= seq!["logic"@, "functions.rs"@]);
                    assert(fcontent@ == file_text(funcsv));
                }
                files.push(PlannedFile { path: fpath, content: fcontent });
                proof {
                    assert(plans_view(files@) =~= type_part + funcs_part);
                }
            } else {
                proof {
                    assert(type_part + funcs_part =~= type_part);
                    assert(plans_view(files@) =~= type_part + funcs_part);
                }
            }
            let (mut mfiles, mnames) = plan_macro_files(&l, &logic_dir);
            files.append(&mut mfiles);
            proof {
                assert(plans_view(files@) =~= (type_part + funcs_part) + macro_files_spec(
                    lv,
                    seq!["logic"@],
                    0,
                ));
            }
            let mut lstems: Vec<String> = Vec::new();
            if funcs.len() > 0 {
                lstems.push(str_to_string("functions"));
            }
            let mut i: usize = 0;
            proof {
                if funcsv.len() > 0 {
                    assert(strs_view(lstems@) =~= seq!["functions"@]);
                } else {
                    assert(strs_view(lstems@) =~= Seq::<Seq<char>>::empty());
                }
                assert(strs_view(mnames@).subrange(0, 0) =~= Seq::<Seq<char>>::empty());
                assert(strs_view(lstems@) + Seq::<Seq<char>>::empty() =~= strs_view(lstems@));
            }
            while i < mnames.len()
                invariant
                    i <= mnames@.len(),
                    strs_view(mnames@) == macro_stems(lv, 0),
                    strs_view(lstems@) == (if funcsv.len() > 0 {
                        seq!["functions"@]
                    } else {
                        Seq::<Seq<char>>::empty()
                    }) + strs_view(mnames@).subrange(0, i as int),
                decreases mnames@.len() - i,
            {
                lstems.push(mnames[i].clone());
                proof {
                    let base = if funcsv.len() > 0 {
                        seq!["functions"@]
                    } else {
                        Seq::<Seq<char>>::empty()
                    };
                    assert(strs_view(lstems@) =~= (base + strs_view(mnames@).subrange(
                        0,
                        i as int,
                    )).push(strs_view(mnames@)[i as int]));
                    assert(base + strs_view(mnames@).subrange(0, i + 1) =~= (base + strs_view(
                        mnames@,
                    ).subrange(0, i as int)).push(strs_view(mnames@)[i as int]));
                }
                i = i + 1;
            }
            proof {
                assert(strs_view(mnames@).subrange(0, strs_view(mnames@).len() as int)
                    =~= strs_view(mnames@));
                assert(strs_view(lstems@) == logic_stems_v);
                assert(strs_view(lstems@).len() == lstems@.len());
            }
            if lstems.len() > 0 {
                let sorted = sort_module_names(lstems);
                let listing = crate::modfile::render_module_listing(&sorted);
                let mut mpath: Vec<String> = Vec::new();
                mpath.push(str_to_string("logic"));
                mpath.push(str_to_string("mod.rs"));
                proof {
                    assert(strs_view(mpath@) =~= seq!["logic"@, "mod.rs"@]);
                    assert(listing@ == render_listing(logic_stems_v.sort_by(stem_le())));
                }
                files.push(PlannedFile { path: mpath, content: listing });
                proof {
                    assert(plans_view(files@) =~= type_part + logic_part);
                }
            } else {
                proof {
                    assert(plans_view(files@) =~= type_part + logic_part);
                }
            }
        } else {
            proof {
                assert(type_part + logic_part =~= type_part);
                assert(plans_view(files@) =~= type_part + logic_part);
            }
        }
        let root_content = build_root_file_content(sub.as_str(), t.len() > 0, l.len() > 0, &o);
        let mut root_path: Vec<String> = Vec::new();
        root_path.push(str_to_string(file_name));
        proof {
            assert(strs_view(root_path@) =~= seq![file_name@]);
            assert(root_content@ == root_text(subv, tv.len() > 0, lv.len() > 0, ov));
        }
        files.push(PlannedFile { path: root_path, content: root_content });
        proof {
            let root_pv = PlannedFileView {
                path: seq![file_name@],
                content: root_text(subv, tv.len() > 0, lv.len() > 0, ov),
            };
            assert(plans_view(files@) =~= (type_part + logic_part) + seq![root_pv]);
            assert(root_files_spec(itemsv, file_name@, kind) == (type_part + logic_part) + seq![
                root_pv,
            ]);
        }
        SplitPlan { files, merge_stems: None }
    }
}

} // verus!
