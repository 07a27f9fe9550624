//! What a change of a document leaves alone.
use vstd::prelude::*;
use crate::text::lemma_push_contains;
use crate::tree::{lemma_filter_all, lemma_filter_filter, lemma_filter_subset, Group, Node};

verus! {

/// Outside the given names both have the same fields, with their layout, in the
/// same order.
pub open spec fn agree_outside(a: Group, b: Group, touched: Set<Seq<char>>) -> bool {
    &&& a.layout == b.layout
    &&& forall|name: Seq<char>| !touched.contains(name) ==> #[trigger] a.field(name) == b.field(name)
    &&& a.order.filter(|name: Seq<char>| !touched.contains(name)) == b.order.filter(
        |name: Seq<char>| !touched.contains(name),
    )
}

/// Agreement is transitive.
pub proof fn lemma_agree_trans(a: Group, b: Group, c: Group, touched: Set<Seq<char>>)
    requires
        agree_outside(a, b, touched),
        agree_outside(b, c, touched),
    ensures
        agree_outside(a, c, touched),
{
    assert forall|name: Seq<char>| !touched.contains(name) implies #[trigger] a.field(name) == c.field(
        name,
    ) by {
        assert(a.field(name) == b.field(name));
        assert(b.field(name) == c.field(name));
    }
}

/// Tables that agree outside some names agree outside more.
pub proof fn lemma_agree_more(a: Group, b: Group, few: Set<Seq<char>>, many: Set<Seq<char>>)
    requires
        agree_outside(a, b, few),
        few.subset_of(many),
    ensures
        agree_outside(a, b, many),
{
    let p = |n: Seq<char>| !few.contains(n);
    let q = |n: Seq<char>| !many.contains(n);
    lemma_filter_filter(a.order, p, q);
    lemma_filter_filter(b.order, p, q);
    assert((|n: Seq<char>| p(n) && q(n)) =~= q);
}

/// Two tables that agree hold the same under every other name.
pub proof fn lemma_agree_get(a: Group, b: Group, touched: Set<Seq<char>>, name: Seq<char>)
    requires
        agree_outside(a, b, touched),
        !touched.contains(name),
    ensures
        a.get(name) == b.get(name),
{
    assert(a.field(name) == b.field(name));
}

/// Writing a field leaves all others alone.
pub proof fn lemma_agree_put(g: Group, name: Seq<char>, node: Node, touched: Set<Seq<char>>)
    requires
        touched.contains(name),
    ensures
        agree_outside(g, g.put(name, node), touched),
{
    let p = |n: Seq<char>| !touched.contains(n);
    if !g.fields.contains_key(name) {
        reveal(Seq::filter);
        assert(g.order.push(name).drop_last() =~= g.order);
        assert(g.put(name, node).order.filter(p) == g.order.filter(p));
    }
}

/// Leaving out some fields leaves all others alone.
pub proof fn lemma_agree_without(g: Group, names: Set<Seq<char>>, touched: Set<Seq<char>>)
    requires
        names.subset_of(touched),
    ensures
        agree_outside(g, g.without(names), touched),
{
    let p = |n: Seq<char>| !touched.contains(n);
    let q = |n: Seq<char>| !names.contains(n);
    lemma_filter_filter(g.order, q, p);
    assert((|n: Seq<char>| q(n) && p(n)) =~= p);
}

/// Writing a field of a section leaves the other sections alone, and the other
/// fields of that section.
pub proof fn lemma_agree_put_in(
    g: Group,
    section: Seq<char>,
    fresh: Node,
    name: Seq<char>,
    node: Node,
    sections: Set<Seq<char>>,
    names: Set<Seq<char>>,
)
    requires
        g.put_in(section, fresh, name, node) is Some,
        fresh == Node::fresh_table() || fresh == Node::fresh_inline(),
        sections.contains(section),
        names.contains(name),
    ensures
        agree_outside(g, g.put_in(section, fresh, name, node)->0, sections),
        agree_outside(
            g.section(section),
            g.put_in(section, fresh, name, node)->0.section(section),
            names,
        ),
{
    let table = g.writable(section, fresh)->0;
    lemma_agree_put(g, section, table.with_group(table.group().put(name, node)), sections);
    lemma_agree_put(table.group(), name, node, names);
}

/// Leaving out fields of a section leaves the other sections alone, and the
/// other fields of that section.
pub proof fn lemma_agree_without_at(
    g: Group,
    section: Seq<char>,
    removed: Set<Seq<char>>,
    sections: Set<Seq<char>>,
    names: Set<Seq<char>>,
)
    requires
        sections.contains(section),
        removed.subset_of(names),
    ensures
        agree_outside(g, g.without_at(section, removed), sections),
        agree_outside(g.section(section), g.without_at(section, removed).section(section), names),
{
    match g.get(section) {
        Some(table) => {
            if table.is_table_like() {
                lemma_agree_put(
                    g,
                    section,
                    table.with_group(table.group().without(removed)),
                    sections,
                );
                lemma_agree_without(table.group(), removed, names);
            }
        },
        None => {},
    }
}

/// Writing what is there already changes nothing.
pub proof fn lemma_put_same(g: Group, name: Seq<char>)
    requires
        g.get(name) is Some,
    ensures
        g.put(name, g.get(name)->0) == g,
{
    assert(g.put(name, g.get(name)->0).fields =~= g.fields);
}

/// Writing a field of a section that is there already changes nothing.
pub proof fn lemma_put_at_same(g: Group, section: Seq<char>, name: Seq<char>)
    requires
        g.at(section, name) is Some,
    ensures
        g.put_at(section, name, g.at(section, name)->0) == Some(g),
        g.put_under(section, name, g.at(section, name)->0) == Some(g),
        g.put_fitting(section, name, g.at(section, name)->0) == Some(g),
{
    lemma_put_same(g.section(section), name);
    lemma_put_same(g, section);
}

/// There is nothing under the name, not even a place for it.
pub open spec fn lacks(g: Group, name: Seq<char>) -> bool {
    !g.fields.contains_key(name) && !g.order.contains(name)
}

/// A field that is left out has no place any more.
pub proof fn lemma_without_lacks(g: Group, names: Set<Seq<char>>, name: Seq<char>)
    requires
        names.contains(name),
    ensures
        lacks(g.without(names), name),
{
    broadcast use vstd::seq_lib::group_filter_ensures;
    let p = |x: Seq<char>| !names.contains(x);
    let kept = g.order.filter(p);
    if kept.contains(name) {
        let k = choose|k: int| 0 <= k < kept.len() && kept[k] == name;
        assert(p(kept[k]));
    }
}

/// Leaving out fields makes no place for another.
pub proof fn lemma_without_more_lacks(g: Group, names: Set<Seq<char>>, name: Seq<char>)
    requires
        lacks(g, name),
    ensures
        lacks(g.without(names), name),
{
    let p = |x: Seq<char>| !names.contains(x);
    if g.order.filter(p).contains(name) {
        lemma_filter_subset(g.order, p, name);
    }
}

/// Writing a field makes no place for another.
pub proof fn lemma_put_lacks(g: Group, name: Seq<char>, node: Node, other: Seq<char>)
    requires
        lacks(g, other),
        name != other,
    ensures
        lacks(g.put(name, node), other),
{
    lemma_push_contains(g.order, name, other);
}

/// Leaving out a field that is not there changes nothing.
pub proof fn lemma_without_lacking(g: Group, name: Seq<char>)
    requires
        lacks(g, name),
    ensures
        g.without(set![name]) == g,
{
    let p = |x: Seq<char>| !set![name].contains(x);
    assert forall|j: int| 0 <= j < g.order.len() implies p(#[trigger] g.order[j]) by {
        assert(g.order.contains(g.order[j]));
    }
    lemma_filter_all(g.order, p);
    assert(g.without(set![name]).order == g.order);
    assert(g.without(set![name]).fields =~= g.fields);
}

/// The contents of a section once fields are left out of it.
pub proof fn lemma_section_without(g: Group, section: Seq<char>, names: Set<Seq<char>>)
    ensures
        g.without_at(section, names).section(section) == g.section(section).without(names),
{
    let none = Group::empty();
    reveal(Seq::filter);
    assert(none.without(names).order =~= none.order);
    assert(none.without(names).fields =~= none.fields);
    assert(none.without(names) == none);
}

/// Leaving out fields of a section that are not there changes nothing.
pub proof fn lemma_without_at_same(g: Group, section: Seq<char>, names: Set<Seq<char>>)
    requires
        g.section(section).without(names) == g.section(section),
    ensures
        g.without_at(section, names) == g,
{
    match g.get(section) {
        Some(table) => {
            if table.is_table_like() {
                lemma_put_same(g, section);
            }
        },
        None => {},
    }
}

/// The names of the sections, and of the fields in them, are all different.
pub proof fn lemma_names_differ()
    ensures
        "endpoints"@ != "models"@,
        "endpoints"@ != "subagents"@,
        "endpoints"@ != "model"@,
        "endpoints"@ != "cc_switch"@,
        "models"@ != "subagents"@,
        "models"@ != "model"@,
        "models"@ != "cc_switch"@,
        "subagents"@ != "model"@,
        "subagents"@ != "cc_switch"@,
        "model"@ != "cc_switch"@,
        "features"@ != "telemetry"@,
        "features"@ != "harness"@,
        "telemetry"@ != "harness"@,
        "default"@ != "web_search"@,
        "trace_upload"@ != "mixpanel_enabled"@,
        "base_url"@ != "api_key"@,
        "base_url"@ != "api_backend"@,
        "base_url"@ != "env_key"@,
        "api_key"@ != "api_backend"@,
        "api_key"@ != "env_key"@,
        "source_provider"@ != "source_model"@,
        "base_url"@ != "cc_switch_owned"@,
        "api_key"@ != "cc_switch_owned"@,
        "api_backend"@ != "cc_switch_owned"@,
{
    reveal_strlit("endpoints");
    reveal_strlit("models");
    reveal_strlit("subagents");
    reveal_strlit("model");
    reveal_strlit("cc_switch");
    reveal_strlit("features");
    reveal_strlit("telemetry");
    reveal_strlit("harness");
    reveal_strlit("default");
    reveal_strlit("web_search");
    reveal_strlit("trace_upload");
    reveal_strlit("mixpanel_enabled");
    reveal_strlit("base_url");
    reveal_strlit("api_key");
    reveal_strlit("api_backend");
    reveal_strlit("env_key");
    reveal_strlit("source_provider");
    reveal_strlit("source_model");
    reveal_strlit("cc_switch_owned");
    assert("endpoints"@.len() == 9);
    assert("models"@.len() == 6);
    assert("subagents"@.len() == 9);
    assert("model"@.len() == 5);
    assert("cc_switch"@.len() == 9);
    assert("features"@.len() == 8);
    assert("telemetry"@.len() == 9);
    assert("harness"@.len() == 7);
    assert("default"@.len() == 7);
    assert("web_search"@.len() == 10);
    assert("trace_upload"@.len() == 12);
    assert("mixpanel_enabled"@.len() == 16);
    assert("base_url"@.len() == 8);
    assert("api_key"@.len() == 7);
    assert("api_backend"@.len() == 11);
    assert("env_key"@.len() == 7);
    assert("source_provider"@.len() == 15);
    assert("source_model"@.len() == 12);
    assert("cc_switch_owned"@.len() == 15);
    assert("endpoints"@[0] == 'e');
    assert("subagents"@[0] == 's');
    assert("cc_switch"@[0] == 'c');
    assert("api_key"@[0] == 'a');
    assert("env_key"@[0] == 'e');
    assert("telemetry"@[0] == 't');
}

} // verus!
