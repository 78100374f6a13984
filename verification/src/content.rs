//! Builders for the text of the files a split produces.
//!
//! Every generated file opens with the crate-prelude import; the items
//! follow with a blank line between distinct items and a single line break
//! between consecutive use declarations. Item texts have their rendered
//! doc attributes converted back into doc comments on the way out.

use vstd::prelude::*;
use vstd::string::StringExecFns;

use crate::doc::{convert_doc_attributes_to_comments, doc_converted};
use crate::item::{views_of, ItemKind, ItemView, SourceItem};

verus! {

/// The import line every generated file opens with.
pub open spec fn prelude_text() -> Seq<char> {
    "use crate::prelude::*;\n\n"@
}

/// The separation between two consecutive items: consecutive use
/// declarations stay on adjacent lines, everything else gets a blank line.
pub open spec fn spacing_of(prev: ItemView, cur: ItemView) -> Seq<char> {
    if prev.kind == ItemKind::Import && cur.kind == ItemKind::Import {
        "\n"@
    } else {
        "\n\n"@
    }
}

/// The rendered items from index `i` on, separated as `spacing_of` says.
pub open spec fn items_text(items: Seq<ItemView>, i: int) -> Seq<char>
    decreases items.len() - i,
{
    if i < 0 || i >= items.len() {
        Seq::empty()
    } else {
        let sep = if i > 0 {
            spacing_of(items[i - 1], items[i])
        } else {
            Seq::empty()
        };
        sep + doc_converted(items[i].text) + "\n"@ + items_text(items, i + 1)
    }
}

/// The whole text of a generated file: the prelude import, then the
/// items.
pub open spec fn file_text(items: Seq<ItemView>) -> Seq<char> {
    prelude_text() + items_text(items, 0)
}

/// The text of a generated macro file: the prelude import, the exported
/// marker attribute, then the macro itself.
pub open spec fn macro_file_text(v: ItemView) -> Seq<char> {
    prelude_text() + "#[macro_export]\n"@ + doc_converted(v.text) + "\n"@
}

/// The rendered leftover items of a rewritten root file, separated by
/// blank lines.
pub open spec fn others_text(items: Seq<ItemView>, i: int) -> Seq<char>
    decreases items.len() - i,
{
    if i < 0 || i >= items.len() {
        Seq::empty()
    } else {
        let sep = if i > 0 {
            "\n"@
        } else {
            Seq::empty()
        };
        sep + doc_converted(items[i].text) + "\n"@ + others_text(items, i + 1)
    }
}

/// The text of a rewritten entry-point file: the module declarations for
/// the sub-directories it got, a prelude module re-exporting them, and the
/// items that stay in the root, in their original order.
pub open spec fn root_text(
    module_name: Seq<char>,
    has_types: bool,
    has_logic: bool,
    others: Seq<ItemView>,
) -> Seq<char> {
    let mods = (if has_types {
        "mod "@ + module_name + ";\n"@
    } else {
        Seq::empty()
    }) + (if has_logic {
        "mod logic;\n"@
    } else {
        Seq::empty()
    });
    let prelude = if has_types || has_logic {
        "\npub mod prelude {\n"@ + (if has_types {
            "    pub use crate::"@ + module_name + "::*;\n"@
        } else {
            Seq::empty()
        }) + (if has_logic {
            "    pub use crate::logic::*;\n"@
        } else {
            Seq::empty()
        }) + "}\n\nuse prelude::*;\n"@
    } else {
        Seq::empty()
    };
    let rest = if others.len() > 0 {
        (if has_types || has_logic {
            "\n"@
        } else {
            Seq::empty()
        }) + others_text(others, 0)
    } else {
        Seq::empty()
    };
    mods + prelude + rest
}

/// The separation written between two consecutive items.
pub fn determine_item_spacing(prev: &SourceItem, cur: &SourceItem) -> (r: &'static str)
    ensures
        r@ == spacing_of(prev@, cur@),
{
    if prev.kind() == ItemKind::Import && cur.kind() == ItemKind::Import {
        "\n"
    } else {
        "\n\n"
    }
}

/// Builds the text of one generated file from the items routed to it.
pub fn build_organized_file_content(items: &Vec<SourceItem>) -> (r: String)
    ensures
        r@ == file_text(views_of(items@)),
{
    let ghost itemsv = views_of(items@);
    let mut out = crate::text::str_to_string("use crate::prelude::*;\n\n");
    let mut i: usize = 0;
    proof {
        assert(out@ + items_text(itemsv, 0) =~= file_text(itemsv));
    }
    while i < items.len()
        invariant
            i <= items@.len(),
            itemsv == views_of(items@),
            itemsv.len() == items@.len(),
            out@ + items_text(itemsv, i as int) == file_text(itemsv),
        decreases items@.len() - i,
    {
        let ghost pre = out@;
        if i > 0 {
            let sep = determine_item_spacing(&items[i - 1], &items[i]);
            out.append(sep);
        }
        let converted = convert_doc_attributes_to_comments(items[i].text().as_str());
        out.append(converted.as_str());
        out.append("\n");
        proof {
            let sep = if i > 0 {
                spacing_of(itemsv[i - 1], itemsv[i as int])
            } else {
                Seq::<char>::empty()
            };
            assert(out@ =~= pre + (sep + doc_converted(itemsv[i as int].text) + "\n"@));
            assert(out@ + items_text(itemsv, i + 1) =~= pre + (sep + doc_converted(
                itemsv[i as int].text,
            ) + "\n"@ + items_text(itemsv, i + 1)));
        }
        i = i + 1;
    }
    proof {
        assert(out@ + Seq::<char>::empty() =~= out@);
    }
    out
}

/// Builds the text of an individual macro file, marked as publicly
/// exported.
pub fn build_macro_file_content(item: &SourceItem) -> (r: String)
    ensures
        r@ == macro_file_text(item@),
{
    let mut out = crate::text::str_to_string("use crate::prelude::*;\n\n");
    out.append("#[macro_export]\n");
    let converted = convert_doc_attributes_to_comments(item.text().as_str());
    out.append(converted.as_str());
    out.append("\n");
    out
}

/// Builds the text of a rewritten entry-point file.
pub fn build_root_file_content(
    module_name: &str,
    has_types: bool,
    has_logic: bool,
    others: &Vec<SourceItem>,
) -> (r: String)
    ensures
        r@ == root_text(module_name@, has_types, has_logic, views_of(others@)),
{
    let ghost othersv = views_of(others@);
    let mut out = String::new();
    if has_types {
        out.append("mod ");
        out.append(module_name);
        out.append(";\n");
    }
    if has_logic {
        out.append("mod logic;\n");
    }
    if has_types || has_logic {
        out.append("\npub mod prelude {\n");
        if has_types {
            out.append("    pub use crate::");
            out.append(module_name);
            out.append("::*;\n");
        }
        if has_logic {
            out.append("    pub use crate::logic::*;\n");
        }
        out.append("}\n\nuse prelude::*;\n");
    }
    let ghost head = out@;
    proof {
        let mods = (if has_types {
            "mod "@ + module_name@ + ";\n"@
        } else {
            Seq::<char>::empty()
        }) + (if has_logic {
            "mod logic;\n"@
        } else {
            Seq::<char>::empty()
        });
        let prelude = if has_types || has_logic {
            "\npub mod prelude {\n"@ + (if has_types {
                "    pub use crate::"@ + module_name@ + "::*;\n"@
            } else {
                Seq::<char>::empty()
            }) + (if has_logic {
                "    pub use crate::logic::*;\n"@
            } else {
                Seq::<char>::empty()
            }) + "}\n\nuse prelude::*;\n"@
        } else {
            Seq::<char>::empty()
        };
        assert(head =~= mods + prelude);
    }
    if others.len() > 0 {
        if has_types || has_logic {
            out.append("\n");
        }
        let ghost mid = out@;
        let mut i: usize = 0;
        proof {
            assert(out@ + others_text(othersv, 0) =~= mid + others_text(othersv, 0));
        }
        while i < others.len()
            invariant
                i <= others@.len(),
                othersv == views_of(others@),
                othersv.len() == others@.len(),
                out@ + others_text(othersv, i as int) == mid + others_text(othersv, 0),
            decreases others@.len() - i,
        {
            let ghost pre = out@;
            if i > 0 {
                out.append("\n");
            }
            let converted = convert_doc_attributes_to_comments(others[i].text().as_str());
            out.append(converted.as_str());
            out.append("\n");
            proof {
                let sep = if i > 0 {
                    "\n"@
                } else {
                    Seq::<char>::empty()
                };
                assert(out@ =~= pre + (sep + doc_converted(othersv[i as int].text) + "\n"@));
                assert(out@ + others_text(othersv, i + 1) =~= pre + (sep + doc_converted(
                    othersv[i as int].text,
                ) + "\n"@ + others_text(othersv, i + 1)));
            }
            i = i + 1;
        }
        proof {
            assert(out@ + Seq::<char>::empty() =~= out@);
            assert(out@ =~= root_text(module_name@, has_types, has_logic, othersv));
        }
    } else {
        proof {
            assert(head + Seq::<char>::empty() =~= head);
            assert(out@ =~= root_text(module_name@, has_types, has_logic, othersv));
        }
    }
    out
}

} // verus!
