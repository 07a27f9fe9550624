//! The mathematical model of a TOML document.
//!
//! A document is a tree of named fields that keep the order in which they
//! were written. The model also carries, as opaque text, the layout that the
//! document has beside its names and values: comments, blank space, quoting,
//! the place of a header. Freshly made values and tables have the empty layout.
use vstd::prelude::*;
use crate::text::lemma_push_contains;

verus! {

/// What stands under one name of a table: the layout of the name, and the node.
pub struct Field {
    pub layout: Seq<char>,
    pub node: Node,
}

/// The contents of a table: its fields by name, and the order of the names.
#[verifier::ext_equal]
pub struct Group {
    pub layout: Seq<char>,
    pub order: Seq<Seq<char>>,
    pub fields: Map<Seq<char>, Field>,
}

/// One node of a document.
pub enum Node {
    /// A name that is reserved and holds nothing.
    Vacant,
    /// A string.
    Text { text: Seq<char>, layout: Seq<char> },
    /// A boolean.
    Flag { flag: bool, layout: Seq<char> },
    /// A number, a date, an array or an array of tables, by all that is kept of it.
    Other { source: Seq<char> },
    /// A table written under a header.
    Table(Group),
    /// A table written in braces.
    Inline(Group),
}

impl Group {
    /// The table without fields.
    pub open spec fn empty() -> Group {
        Group { layout: Seq::empty(), order: Seq::empty(), fields: Map::empty() }
    }

    /// Every field has exactly one place in the order.
    pub open spec fn well_formed(self) -> bool {
        &&& self.order.no_duplicates()
        &&& forall|name: Seq<char>| #[trigger] self.order.contains(name) <==> self.fields.contains_key(name)
    }

    /// Every table in the document is well formed, at any depth.
    pub open spec fn is_sound(self) -> bool {
        forall|path: Seq<Seq<char>>|
            match #[trigger] Node::Table(self).descend(path) {
                Some(node) => node.is_table_like() ==> node.group().well_formed(),
                None => true,
            }
    }

    /// The node under `name`, if the name holds anything.
    pub open spec fn get(self, name: Seq<char>) -> Option<Node> {
        if self.fields.contains_key(name) && self.fields[name].node !is Vacant {
            Some(self.fields[name].node)
        } else {
            None
        }
    }

    /// The field of that name, with its layout.
    pub open spec fn field(self, name: Seq<char>) -> Option<Field> {
        if self.fields.contains_key(name) {
            Some(self.fields[name])
        } else {
            None
        }
    }

    /// The contents of the table `name`; nothing where there is none.
    pub open spec fn section(self, name: Seq<char>) -> Group {
        match self.get(name) {
            Some(node) => node.group(),
            None => Group::empty(),
        }
    }

    /// The names that hold something, in order.
    pub open spec fn names(self) -> Seq<Seq<char>> {
        self.order.filter(|name: Seq<char>| self.get(name) is Some)
    }

    /// The table with `node` under `name`: in the place of the field of that
    /// name, with its layout, or behind all others with the empty layout.
    pub open spec fn put(self, name: Seq<char>, node: Node) -> Group {
        if self.fields.contains_key(name) {
            Group {
                fields: self.fields.insert(name, Field { layout: self.fields[name].layout, node }),
                ..self
            }
        } else {
            Group {
                order: self.order.push(name),
                fields: self.fields.insert(name, Field { layout: Seq::empty(), node }),
                ..self
            }
        }
    }

    /// The table without the fields named in `names`.
    pub open spec fn without(self, names: Set<Seq<char>>) -> Group {
        Group {
            order: self.order.filter(|name: Seq<char>| !names.contains(name)),
            fields: self.fields.remove_keys(names),
            ..self
        }
    }

    /// The table with `f` applied to each table under a header in it.
    pub open spec fn map_tables(self, f: spec_fn(Group) -> Group) -> Group {
        Group {
            fields: self.fields.map_values(
                |field: Field| Field { layout: field.layout, node: field.node.map_table(f) },
            ),
            ..self
        }
    }

    /// The string under `name`.
    pub open spec fn text(self, name: Seq<char>) -> Option<Seq<char>> {
        match self.get(name) {
            Some(node) => node.text(),
            None => None,
        }
    }

    /// The node under `name` of the table `section`.
    pub open spec fn at(self, section: Seq<char>, name: Seq<char>) -> Option<Node> {
        match self.get(section) {
            Some(node) => node.child(name),
            None => None,
        }
    }

    /// The string under `name` of the table `section`.
    pub open spec fn text_at(self, section: Seq<char>, name: Seq<char>) -> Option<Seq<char>> {
        match self.at(section, name) {
            Some(node) => node.text(),
            None => None,
        }
    }

    /// The table under `name` that a field can be written to: the one that is
    /// there, `fresh` where nothing is, none where something else is.
    pub open spec fn writable(self, name: Seq<char>, fresh: Node) -> Option<Node> {
        match self.get(name) {
            None => Some(fresh),
            Some(node) => if node.is_table_like() {
                Some(node)
            } else {
                None
            },
        }
    }

    /// The contents with `node` under `name` of the table `section`, which is
    /// `fresh` where nothing was; none where `section` is something other than a
    /// table.
    pub open spec fn put_in(
        self,
        section: Seq<char>,
        fresh: Node,
        name: Seq<char>,
        node: Node,
    ) -> Option<Group> {
        match self.writable(section, fresh) {
            Some(table) => Some(self.put(section, table.with_group(table.group().put(name, node)))),
            None => None,
        }
    }

    /// [`Group::put_in`] with a new section in braces.
    pub open spec fn put_at(self, section: Seq<char>, name: Seq<char>, node: Node) -> Option<Group> {
        self.put_in(section, Node::fresh_inline(), name, node)
    }

    /// [`Group::put_in`] with a new section under a header, for a section that
    /// holds tables under headers.
    pub open spec fn put_under(self, section: Seq<char>, name: Seq<char>, node: Node) -> Option<Group> {
        self.put_in(section, Node::fresh_table(), name, node)
    }

    /// [`Group::put_in`] with a new section that can hold the node: under a header
    /// for a table under a header, else in braces.
    pub open spec fn put_fitting(
        self,
        section: Seq<char>,
        name: Seq<char>,
        node: Node,
    ) -> Option<Group> {
        self.put_in(section, node.fitting_section(), name, node)
    }

    /// The contents without the fields `names` of the table `section`.
    pub open spec fn without_at(self, section: Seq<char>, names: Set<Seq<char>>) -> Group {
        match self.get(section) {
            Some(table) => if table.is_table_like() {
                self.put(section, table.with_group(table.group().without(names)))
            } else {
                self
            },
            None => self,
        }
    }
}

impl Node {
    pub open spec fn is_table_like(self) -> bool {
        self is Table || self is Inline
    }

    /// The contents of a table, of either notation.
    pub open spec fn group(self) -> Group {
        match self {
            Node::Table(g) => g,
            Node::Inline(g) => g,
            _ => Group::empty(),
        }
    }

    /// The same notation with other contents.
    pub open spec fn with_group(self, group: Group) -> Node {
        match self {
            Node::Inline(_) => Node::Inline(group),
            _ => Node::Table(group),
        }
    }

    /// The node under `name` of a table, of either notation.
    pub open spec fn child(self, name: Seq<char>) -> Option<Node> {
        if self.is_table_like() {
            self.group().get(name)
        } else {
            None
        }
    }

    /// `f` applied to a table under a header; anything else as it is.
    pub open spec fn map_table(self, f: spec_fn(Group) -> Group) -> Node {
        match self {
            Node::Table(group) => Node::Table(f(group)),
            _ => self,
        }
    }

    /// The node that some names lead to, one table after the other.
    pub open spec fn descend(self, path: Seq<Seq<char>>) -> Option<Node>
        decreases path.len(),
    {
        if path.len() == 0 {
            Some(self)
        } else {
            match self.child(path[0]) {
                Some(node) => node.descend(path.drop_first()),
                None => None,
            }
        }
    }

    /// The string that the node is.
    pub open spec fn text(self) -> Option<Seq<char>> {
        match self {
            Node::Text { text, .. } => Some(text),
            _ => None,
        }
    }

    /// The boolean that the node is.
    pub open spec fn flag(self) -> Option<bool> {
        match self {
            Node::Flag { flag, .. } => Some(flag),
            _ => None,
        }
    }

    /// A new string.
    pub open spec fn fresh_text(text: Seq<char>) -> Node {
        Node::Text { text, layout: Seq::empty() }
    }

    /// A new table under a header, without fields.
    pub open spec fn fresh_table() -> Node {
        Node::Table(Group::empty())
    }

    /// A new table in braces, without fields.
    pub open spec fn fresh_inline() -> Node {
        Node::Inline(Group::empty())
    }

    /// A new section that can hold the node.
    pub open spec fn fitting_section(self) -> Node {
        if self is Table {
            Node::fresh_table()
        } else {
            Node::fresh_inline()
        }
    }

    /// A new boolean.
    pub open spec fn fresh_flag(flag: bool) -> Node {
        Node::Flag { flag, layout: Seq::empty() }
    }

    /// The names that a walk over the table visits: those that hold something,
    /// and in a table in braces also the reserved ones.
    pub open spec fn walk(self) -> Seq<Seq<char>> {
        match self {
            Node::Table(g) => g.names(),
            Node::Inline(g) => g.order,
            _ => Seq::empty(),
        }
    }

    /// Whether a walk over the table visits the name.
    pub open spec fn visits(self, name: Seq<char>) -> bool {
        match self {
            Node::Table(g) => g.get(name) is Some,
            Node::Inline(g) => g.fields.contains_key(name),
            _ => false,
        }
    }
}

/// The first of the names that `p` holds of.
pub open spec fn first_where(names: Seq<Seq<char>>, p: spec_fn(Seq<char>) -> bool) -> Option<Seq<char>>
    decreases names.len(),
{
    if names.len() == 0 {
        None
    } else if p(names[0]) {
        Some(names[0])
    } else {
        first_where(names.drop_first(), p)
    }
}

/// A name that `p` holds of, with none before it, is the first.
pub proof fn lemma_first_where_found(names: Seq<Seq<char>>, p: spec_fn(Seq<char>) -> bool, i: int)
    requires
        0 <= i < names.len(),
        p(names[i]),
        forall|j: int| 0 <= j < i ==> !p(#[trigger] names[j]),
    ensures
        first_where(names, p) == Some(names[i]),
    decreases names.len(),
{
    if i > 0 {
        let rest = names.drop_first();
        assert(rest[i - 1] == names[i]);
        assert forall|j: int| 0 <= j < i - 1 implies !p(#[trigger] rest[j]) by {
            assert(rest[j] == names[j + 1]);
        }
        lemma_first_where_found(rest, p, i - 1);
    }
}

/// Where `p` holds of no name there is no first.
pub proof fn lemma_first_where_none(names: Seq<Seq<char>>, p: spec_fn(Seq<char>) -> bool)
    requires
        forall|j: int| 0 <= j < names.len() ==> !p(#[trigger] names[j]),
    ensures
        first_where(names, p) is None,
    decreases names.len(),
{
    if names.len() > 0 {
        let rest = names.drop_first();
        assert forall|j: int| 0 <= j < rest.len() implies !p(#[trigger] rest[j]) by {
            assert(rest[j] == names[j + 1]);
        }
        lemma_first_where_none(rest, p);
    }
}

/// The first name found is one of the names, and `p` holds of it.
pub proof fn lemma_first_where_holds(names: Seq<Seq<char>>, p: spec_fn(Seq<char>) -> bool)
    ensures
        match first_where(names, p) {
            Some(name) => names.contains(name) && p(name),
            None => forall|j: int| 0 <= j < names.len() ==> !p(#[trigger] names[j]),
        },
    decreases names.len(),
{
    if names.len() > 0 && !p(names[0]) {
        let rest = names.drop_first();
        lemma_first_where_holds(rest, p);
        match first_where(names, p) {
            Some(name) => {
                let k = choose|k: int| 0 <= k < rest.len() && rest[k] == name;
                assert(names[k + 1] == name);
            },
            None => {
                assert forall|j: int| 0 <= j < names.len() implies !p(#[trigger] names[j]) by {
                    if j > 0 {
                        assert(rest[j - 1] == names[j]);
                    }
                }
            },
        }
    } else if names.len() > 0 {
        assert(names[0] == names[0]);
    }
}

/// Where the first name stands: `p` holds of none before it.
pub proof fn lemma_first_where_at(names: Seq<Seq<char>>, p: spec_fn(Seq<char>) -> bool) -> (k: int)
    requires
        first_where(names, p) is Some,
    ensures
        0 <= k < names.len(),
        names[k] == first_where(names, p)->0,
        p(names[k]),
        forall|j: int| 0 <= j < k ==> !p(#[trigger] names[j]),
    decreases names.len(),
{
    if p(names[0]) {
        0
    } else {
        let rest = names.drop_first();
        let k = lemma_first_where_at(rest, p) + 1;
        assert(names[k] == rest[k - 1]);
        assert forall|j: int| 0 <= j < k implies !p(#[trigger] names[j]) by {
            if j > 0 {
                assert(names[j] == rest[j - 1]);
            }
        }
        k
    }
}

/// The first name is the same among those that pass a filter, if it is one that
/// only those can be.
pub proof fn lemma_first_where_filter(
    names: Seq<Seq<char>>,
    f: spec_fn(Seq<char>) -> bool,
    p: spec_fn(Seq<char>) -> bool,
)
    requires
        forall|x: Seq<char>| #[trigger] p(x) ==> f(x),
    ensures
        first_where(names.filter(f), p) == first_where(names, p),
    decreases names.len(),
{
    reveal_with_fuel(Seq::filter, 3);
    if names.len() > 0 {
        let rest = names.drop_first();
        let one = seq![names[0]];
        lemma_first_where_filter(rest, f, p);
        assert(names =~= one + rest);
        Seq::filter_distributes_over_add(one, rest, f);
        assert(one.drop_last() =~= Seq::empty());
        if f(names[0]) {
            assert(one.filter(f) =~= one);
            assert((one + rest.filter(f)).drop_first() =~= rest.filter(f));
        } else {
            assert(one.filter(f) =~= Seq::empty());
            assert(Seq::empty() + rest.filter(f) =~= rest.filter(f));
        }
    }
}

/// Two filters that agree on the names give the same.
pub proof fn lemma_filter_same(
    s: Seq<Seq<char>>,
    p: spec_fn(Seq<char>) -> bool,
    q: spec_fn(Seq<char>) -> bool,
)
    requires
        forall|j: int| 0 <= j < s.len() ==> p(#[trigger] s[j]) == q(s[j]),
    ensures
        s.filter(p) == s.filter(q),
    decreases s.len(),
{
    reveal(Seq::filter);
    if s.len() > 0 {
        let rest = s.drop_last();
        assert forall|j: int| 0 <= j < rest.len() implies p(#[trigger] rest[j]) == q(rest[j]) by {
            assert(rest[j] == s[j]);
        }
        lemma_filter_same(rest, p, q);
        assert(p(s[s.len() - 1]) == q(s[s.len() - 1]));
    }
}

/// Filtering twice is filtering once by both conditions.
pub proof fn lemma_filter_filter(
    s: Seq<Seq<char>>,
    p: spec_fn(Seq<char>) -> bool,
    q: spec_fn(Seq<char>) -> bool,
)
    ensures
        s.filter(p).filter(q) == s.filter(|x: Seq<char>| p(x) && q(x)),
    decreases s.len(),
{
    reveal(Seq::filter);
    let both = |x: Seq<char>| p(x) && q(x);
    if s.len() > 0 {
        lemma_filter_filter(s.drop_last(), p, q);
        let rest = s.drop_last().filter(p);
        if p(s.last()) {
            assert(rest.push(s.last()).drop_last() =~= rest);
        }
    }
}

/// Leaving out some fields and then others leaves out all of them.
pub proof fn lemma_without_without(g: Group, some: Set<Seq<char>>, others: Set<Seq<char>>)
    ensures
        g.without(some).without(others) == g.without(some.union(others)),
{
    let p = |x: Seq<char>| !some.contains(x);
    let q = |x: Seq<char>| !others.contains(x);
    let both = |x: Seq<char>| p(x) && q(x);
    let r = |x: Seq<char>| !some.union(others).contains(x);
    lemma_filter_filter(g.order, p, q);
    assert(both =~= r);
    assert(g.without(some).order == g.order.filter(p));
    assert(g.without(some).without(others).order == g.order.filter(p).filter(q));
    assert(g.fields.remove_keys(some).remove_keys(others) =~= g.fields.remove_keys(some.union(others)));
}

/// Leaving out some fields and then one more leaves out all of them.
pub proof fn lemma_without_insert(g: Group, names: Set<Seq<char>>, name: Seq<char>)
    ensures
        g.without(names).without(set![name]) == g.without(names.insert(name)),
{
    lemma_without_without(g, names, set![name]);
    assert(names.union(set![name]) =~= names.insert(name));
}

/// Leaving out no field changes nothing.
pub proof fn lemma_without_none(g: Group)
    ensures
        g.without(Set::empty()) == g,
{
    lemma_filter_all(g.order, |x: Seq<char>| !Set::<Seq<char>>::empty().contains(x));
    assert(g.fields.remove_keys(Set::empty()) =~= g.fields);
    assert(g.without(Set::empty()).order == g.order);
}

/// A filter that every name passes changes nothing.
pub proof fn lemma_filter_all(s: Seq<Seq<char>>, p: spec_fn(Seq<char>) -> bool)
    requires
        forall|j: int| 0 <= j < s.len() ==> p(#[trigger] s[j]),
    ensures
        s.filter(p) == s,
    decreases s.len(),
{
    reveal(Seq::filter);
    if s.len() > 0 {
        let rest = s.drop_last();
        assert forall|j: int| 0 <= j < rest.len() implies p(#[trigger] rest[j]) by {
            assert(rest[j] == s[j]);
        }
        lemma_filter_all(rest, p);
        assert(s[s.len() - 1] == s.last());
        assert(rest.push(s.last()) =~= s);
    }
}

/// `now` is `before` with `f` applied to the tables under the names `done`.
pub open spec fn is_partly_mapped(
    now: Group,
    before: Group,
    f: spec_fn(Group) -> Group,
    done: Set<Seq<char>>,
) -> bool {
    &&& now.layout == before.layout
    &&& now.order == before.order
    &&& forall|name: Seq<char>| #[trigger]
        now.fields.contains_key(name) <==> before.fields.contains_key(name)
    &&& forall|name: Seq<char>| #[trigger]
        before.fields.contains_key(name) ==> now.fields[name] == (Field {
            layout: before.fields[name].layout,
            node: if done.contains(name) {
                before.fields[name].node.map_table(f)
            } else {
                before.fields[name].node
            },
        })
}

/// One more table.
pub proof fn lemma_mapped_step(
    now: Group,
    before: Group,
    f: spec_fn(Group) -> Group,
    done: Set<Seq<char>>,
    name: Seq<char>,
)
    requires
        is_partly_mapped(now, before, f, done),
        !done.contains(name),
        before.get(name) is Some,
    ensures
        now.get(name) == before.get(name),
        is_partly_mapped(
            now.put(name, before.get(name)->0.map_table(f)),
            before,
            f,
            done.insert(name),
        ),
        before.get(name)->0 !is Table ==> is_partly_mapped(now, before, f, done.insert(name)),
{
    assert(before.fields.contains_key(name));
    assert(now.fields.contains_key(name));
}

/// Once every name that holds something is done, the whole table is.
pub proof fn lemma_mapped_all(
    now: Group,
    before: Group,
    f: spec_fn(Group) -> Group,
    done: Set<Seq<char>>,
)
    requires
        is_partly_mapped(now, before, f, done),
        forall|name: Seq<char>| before.get(name) is Some ==> #[trigger] done.contains(name),
    ensures
        now == before.map_tables(f),
{
    let all = before.map_tables(f);
    assert forall|name: Seq<char>| before.fields.contains_key(name) implies #[trigger] now.fields[name]
        == all.fields[name] by {
        assert(now.fields.contains_key(name));
        if before.fields[name].node !is Vacant {
            assert(before.get(name) is Some);
            assert(done.contains(name));
        }
    }
    assert(now.fields =~= all.fields);
}

/// What passes a filter was there before.
pub proof fn lemma_filter_subset(s: Seq<Seq<char>>, p: spec_fn(Seq<char>) -> bool, x: Seq<char>)
    requires
        s.filter(p).contains(x),
    ensures
        s.contains(x),
    decreases s.len(),
{
    reveal(Seq::filter);
    if s.len() > 0 {
        let rest = s.drop_last();
        assert(s =~= rest.push(s.last()));
        lemma_push_contains(rest, s.last(), x);
        if p(s.last()) {
            lemma_push_contains(rest.filter(p), s.last(), x);
        }
        if rest.filter(p).contains(x) {
            lemma_filter_subset(rest, p, x);
        }
    }
}

/// The names that hold something are those that do and have a place.
pub proof fn lemma_names(g: Group, name: Seq<char>)
    ensures
        g.names().contains(name) <==> g.order.contains(name) && g.get(name) is Some,
{
    broadcast use vstd::seq_lib::group_filter_ensures;

    let p = |n: Seq<char>| g.get(n) is Some;
    if g.names().contains(name) {
        lemma_filter_subset(g.order, p, name);
        let k = choose|k: int| 0 <= k < g.names().len() && g.names()[k] == name;
        assert(p(g.order.filter(p)[k]));
    }
    if g.order.contains(name) && g.get(name) is Some {
        let k = choose|k: int| 0 <= k < g.order.len() && g.order[k] == name;
        assert(p(g.order[k]));
        assert(g.order.filter(p).contains(g.order[k]));
    }
}

/// A filter repeats no name.
pub proof fn lemma_filter_no_duplicates(s: Seq<Seq<char>>, p: spec_fn(Seq<char>) -> bool)
    requires
        s.no_duplicates(),
    ensures
        s.filter(p).no_duplicates(),
    decreases s.len(),
{
    reveal(Seq::filter);
    if s.len() > 0 {
        let rest = s.drop_last();
        lemma_filter_no_duplicates(rest, p);
        if rest.filter(p).contains(s.last()) {
            lemma_filter_subset(rest, p, s.last());
            let k = choose|k: int| 0 <= k < rest.len() && rest[k] == s.last();
            assert(s[k] == s[s.len() - 1]);
        }
        assert(!rest.filter(p).contains(s.last()));
        let kept = rest.filter(p);
        assert forall|i: int, j: int|
            0 <= i < kept.push(s.last()).len() && 0 <= j < kept.push(s.last()).len() && i
                != j implies kept.push(s.last())[i] != kept.push(s.last())[j] by {
            if i < kept.len() && j < kept.len() {
                assert(kept[i] != kept[j]);
            } else if i < kept.len() {
                assert(kept.contains(kept[i]));
            } else {
                assert(kept.contains(kept[j]));
            }
        }
    }
}

/// Writing a field keeps a table well formed.
pub proof fn lemma_put_well_formed(g: Group, name: Seq<char>, node: Node)
    requires
        g.well_formed(),
    ensures
        g.put(name, node).well_formed(),
{
    let after = g.put(name, node);
    if !g.fields.contains_key(name) {
        assert(!g.order.contains(name));
        assert forall|i: int, j: int| 0 <= i < after.order.len() && 0 <= j < after.order.len() && i
            != j implies after.order[i] != after.order[j] by {
            if i < g.order.len() && j < g.order.len() {
                assert(g.order[i] != g.order[j]);
            } else if i < g.order.len() {
                assert(g.order.contains(g.order[i]));
            } else {
                assert(g.order.contains(g.order[j]));
            }
        }
    }
    assert forall|n: Seq<char>| #[trigger] after.order.contains(n) <==> after.fields.contains_key(n) by {
        lemma_push_contains(g.order, name, n);
        assert(g.order.contains(n) <==> g.fields.contains_key(n));
    }
}

/// Leaving out fields keeps a table well formed.
pub proof fn lemma_without_well_formed(g: Group, names: Set<Seq<char>>)
    requires
        g.well_formed(),
    ensures
        g.without(names).well_formed(),
{
    broadcast use vstd::seq_lib::group_filter_ensures;

    let after = g.without(names);
    let p = |n: Seq<char>| !names.contains(n);
    lemma_filter_no_duplicates(g.order, p);
    assert forall|n: Seq<char>| #[trigger] after.order.contains(n) <==> after.fields.contains_key(n) by {
        assert(g.order.contains(n) <==> g.fields.contains_key(n));
        if g.order.filter(p).contains(n) {
            lemma_filter_subset(g.order, p, n);
            let k = choose|k: int| 0 <= k < after.order.len() && after.order[k] == n;
            assert(p(g.order.filter(p)[k]));
        }
        if after.fields.contains_key(n) {
            let k = choose|k: int| 0 <= k < g.order.len() && g.order[k] == n;
            assert(p(g.order[k]));
            assert(g.order.filter(p).contains(g.order[k]));
        }
    }
}

/// The empty document is sound.
pub proof fn lemma_empty_is_sound()
    ensures
        Group::empty().is_sound(),
{
    let root = Node::Table(Group::empty());
    assert forall|path: Seq<Seq<char>>|
        match #[trigger] root.descend(path) {
            Some(node) => node.is_table_like() ==> node.group().well_formed(),
            None => true,
        } by {
        if path.len() > 0 {
            assert(root.child(path[0]) is None);
        }
    }
}

/// What soundness says of the root, of its tables and of the tables in those.
pub proof fn lemma_sound_tables(doc: Group, section: Seq<char>, name: Seq<char>)
    requires
        doc.is_sound(),
    ensures
        doc.well_formed(),
        match doc.get(section) {
            Some(node) => node.is_table_like() ==> node.group().well_formed(),
            None => true,
        },
        match doc.at(section, name) {
            Some(node) => node.is_table_like() ==> node.group().well_formed(),
            None => true,
        },
{
    reveal_with_fuel(Node::descend, 3);
    let root = Node::Table(doc);
    let none = Seq::<Seq<char>>::empty();
    let one = none.push(section);
    let two = one.push(name);
    assert(root.descend(none) == Some(root));
    assert(one.drop_first() =~= none);
    assert(root.descend(one) == doc.get(section));
    assert(two.drop_first() =~= none.push(name));
    assert(two.drop_first().drop_first() =~= none);
    assert(root.descend(two) == doc.at(section, name));
}

} // verus!
