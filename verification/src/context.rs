//! Contexts: the nested scopes that bind names to values.
//!
//! A context holds the scopes that are open, the global scope first and the
//! current scope last. Each scope but the global one names its parent, an
//! older scope; a lookup walks from the current scope along the parents.

use crate::object::{Object, ObjectInfo, ObjectInfoView};
use crate::text::owned;
use crate::type_system::Type;
use vstd::prelude::*;

verus! {

/// The kinds of scopes.
#[derive(Debug, Clone, Copy, PartialEq, Eq, Structural)]
pub enum ContextType {
    Global,
    Function,
    Loop,
    IfElse,
}

/// One scope: its kind, its bindings in the order of their declaration, and
/// the index of its parent.
#[derive(Debug)]
struct Scope {
    type_: ContextType,
    store: Vec<(String, ObjectInfo)>,
    parent: Option<usize>,
}

/// The mathematical model of a scope.
pub struct ScopeView {
    pub kind: ContextType,
    pub bindings: Map<Seq<char>, ObjectInfoView>,
    pub parent: Option<int>,
}

/// The open scopes, the global scope first and the current scope last.
#[derive(Debug)]
pub struct Context {
    scopes: Vec<Scope>,
}

/// The bindings that a list of entries gives: each name with its value, a
/// later entry of a name before an earlier one.
pub open spec fn entries_map(store: Seq<(String, ObjectInfo)>) -> Map<Seq<char>, ObjectInfoView>
    decreases store.len(),
{
    if store.len() == 0 {
        Map::empty()
    } else {
        entries_map(store.drop_last()).insert(store.last().0@, store.last().1@)
    }
}

/// The bindings that a list of entries gives when an earlier entry of a name
/// goes before a later one.
pub open spec fn first_wins(store: Seq<(String, ObjectInfo)>) -> Map<Seq<char>, ObjectInfoView>
    decreases store.len(),
{
    if store.len() == 0 {
        Map::empty()
    } else {
        let before = first_wins(store.drop_last());
        if before.contains_key(store.last().0@) {
            before
        } else {
            before.insert(store.last().0@, store.last().1@)
        }
    }
}

/// The bindings that a list of named bindings gives when an earlier entry
/// of a name goes before a later one.
pub open spec fn first_bound(entries: Seq<(Seq<char>, ObjectInfoView)>) -> Map<
    Seq<char>,
    ObjectInfoView,
>
    decreases entries.len(),
{
    if entries.len() == 0 {
        Map::empty()
    } else {
        let before = first_bound(entries.drop_last());
        if before.contains_key(entries.last().0) {
            before
        } else {
            before.insert(entries.last().0, entries.last().1)
        }
    }
}

/// The models of a list of entries.
pub open spec fn entry_views(store: Seq<(String, ObjectInfo)>) -> Seq<(Seq<char>, ObjectInfoView)> {
    Seq::new(store.len(), |i: int| (store[i].0@, store[i].1@))
}

/// The bindings of a list of entries are those of its models.
pub proof fn lemma_first_wins_views(store: Seq<(String, ObjectInfo)>)
    ensures
        first_wins(store) == first_bound(entry_views(store)),
    decreases store.len(),
{
    if store.len() > 0 {
        lemma_first_wins_views(store.drop_last());
        assert(entry_views(store).drop_last() =~= entry_views(store.drop_last()));
        assert(entry_views(store).last() == (store.last().0@, store.last().1@));
    }
}

/// A name that a list of named bindings binds is the name of one of them.
pub proof fn lemma_first_bound_names(entries: Seq<(Seq<char>, ObjectInfoView)>, name: Seq<char>)
    requires
        first_bound(entries).contains_key(name),
    ensures
        exists|k: int| 0 <= k < entries.len() && (#[trigger] entries[k]).0 == name,
    decreases entries.len(),
{
    if entries.len() > 0 {
        if first_bound(entries.drop_last()).contains_key(name) {
            lemma_first_bound_names(entries.drop_last(), name);
            let k = choose|k: int|
                0 <= k < entries.drop_last().len() && (#[trigger] entries.drop_last()[k]).0 == name;
            assert(entries[k].0 == name);
        } else {
            assert(entries[entries.len() - 1].0 == name);
        }
    }
}

/// Where no two entries of a list have one name, every entry is bound as
/// it stands.
pub proof fn lemma_first_bound_each(entries: Seq<(Seq<char>, ObjectInfoView)>, i: int)
    requires
        forall|a: int, b: int| 0 <= a < b < entries.len() ==> entries[a].0 != entries[b].0,
        0 <= i < entries.len(),
    ensures
        first_bound(entries).contains_key(entries[i].0),
        first_bound(entries)[entries[i].0] == entries[i].1,
    decreases entries.len(),
{
    let before = entries.drop_last();
    if i < entries.len() - 1 {
        assert forall|a: int, b: int| 0 <= a < b < before.len() implies before[a].0 != before[b].0 by {
            assert(entries[a].0 != entries[b].0);
        }
        lemma_first_bound_each(before, i);
        assert(before[i] == entries[i]);
        assert(entries[i].0 != entries[entries.len() - 1].0);
    } else {
        if first_bound(before).contains_key(entries[i].0) {
            lemma_first_bound_names(before, entries[i].0);
            let k = choose|k: int| 0 <= k < before.len() && (#[trigger] before[k]).0 == entries[i].0;
            assert(entries[k].0 == entries[i].0);
        }
    }
}

/// No name is entered twice.
pub open spec fn unique_names(store: Seq<(String, ObjectInfo)>) -> bool {
    forall|i: int, j: int| 0 <= i < j < store.len() ==> store[i].0@ != store[j].0@
}

proof fn lemma_entries_contains(store: Seq<(String, ObjectInfo)>, name: Seq<char>)
    ensures
        entries_map(store).contains_key(name) <==> exists|i: int|
            0 <= i < store.len() && #[trigger] store[i].0@ == name,
    decreases store.len(),
{
    if store.len() > 0 {
        let before = store.drop_last();
        lemma_entries_contains(before, name);
        if entries_map(store).contains_key(name) {
            if store.last().0@ == name {
                assert(store[store.len() - 1].0@ == name);
            } else {
                let i = choose|i: int| 0 <= i < before.len() && #[trigger] before[i].0@ == name;
                assert(store[i].0@ == name);
            }
        }
        if exists|i: int| 0 <= i < store.len() && #[trigger] store[i].0@ == name {
            let i = choose|i: int| 0 <= i < store.len() && #[trigger] store[i].0@ == name;
            if i < store.len() - 1 {
                assert(before[i].0@ == name);
            }
        }
    }
}

proof fn lemma_entries_value(store: Seq<(String, ObjectInfo)>, i: int)
    requires
        unique_names(store),
        0 <= i < store.len(),
    ensures
        entries_map(store).contains_key(store[i].0@),
        entries_map(store)[store[i].0@] == store[i].1@,
    decreases store.len(),
{
    let before = store.drop_last();
    if i < store.len() - 1 {
        assert(unique_names(before)) by {
            assert forall|a: int, b: int| 0 <= a < b < before.len() implies before[a].0@
                != before[b].0@ by {
                assert(store[a].0@ != store[b].0@);
            }
        }
        lemma_entries_value(before, i);
        assert(before[i] == store[i]);
        assert(store[i].0@ != store[store.len() - 1].0@);
    }
}

proof fn lemma_unique_drop_last(store: Seq<(String, ObjectInfo)>)
    requires
        unique_names(store),
        store.len() > 0,
    ensures
        unique_names(store.drop_last()),
{
    let before = store.drop_last();
    assert forall|a: int, b: int| 0 <= a < b < before.len() implies before[a].0@ != before[b].0@ by {
        assert(store[a].0@ != store[b].0@);
    }
}

proof fn lemma_entries_update(store: Seq<(String, ObjectInfo)>, i: int, entry: (String, ObjectInfo))
    requires
        unique_names(store),
        0 <= i < store.len(),
        entry.0@ == store[i].0@,
    ensures
        unique_names(store.update(i, entry)),
        entries_map(store.update(i, entry)) == entries_map(store).insert(entry.0@, entry.1@),
    decreases store.len(),
{
    let after = store.update(i, entry);
    assert forall|a: int, b: int| 0 <= a < b < after.len() implies after[a].0@ != after[b].0@ by {
        assert(store[a].0@ != store[b].0@);
    }
    let before = store.drop_last();
    lemma_unique_drop_last(store);
    if i == store.len() - 1 {
        assert(after.drop_last() =~= before);
        assert(entries_map(after) =~= entries_map(store).insert(entry.0@, entry.1@));
    } else {
        lemma_entries_update(before, i, entry);
        assert(after.drop_last() =~= before.update(i, entry));
        assert(store[i].0@ != store[store.len() - 1].0@);
        assert(entries_map(after) =~= entries_map(store).insert(entry.0@, entry.1@));
    }
}

proof fn lemma_entries_push(store: Seq<(String, ObjectInfo)>, entry: (String, ObjectInfo))
    requires
        unique_names(store),
        !entries_map(store).contains_key(entry.0@),
    ensures
        unique_names(store.push(entry)),
        entries_map(store.push(entry)) == entries_map(store).insert(entry.0@, entry.1@),
{
    let after = store.push(entry);
    assert(after.drop_last() =~= store);
    assert forall|a: int, b: int| 0 <= a < b < after.len() implies after[a].0@ != after[b].0@ by {
        if b == store.len() {
            lemma_entries_contains(store, entry.0@);
            assert(store[a].0@ != entry.0@);
        } else {
            assert(store[a].0@ != store[b].0@);
        }
    }
}

impl Scope {
    spec fn view(&self) -> ScopeView {
        ScopeView {
            kind: self.type_,
            bindings: entries_map(self.store@),
            parent: match self.parent {
                Some(p) => Some(p as int),
                None => None,
            },
        }
    }
}

/// The binding of `name` that a walk from the scope `at` along the parents
/// meets first, with the index of its scope.
pub open spec fn lookup_from(scopes: Seq<ScopeView>, at: int, name: Seq<char>) -> Option<
    (int, ObjectInfoView),
>
    decreases at,
{
    if !(0 <= at < scopes.len()) {
        None
    } else if scopes[at].bindings.contains_key(name) {
        Some((at, scopes[at].bindings[name]))
    } else {
        match scopes[at].parent {
            Some(p) => if 0 <= p < at {
                lookup_from(scopes, p, name)
            } else {
                None
            },
            None => None,
        }
    }
}

/// The binding that `name` resolves to in the current scope of `scopes`.
pub open spec fn lookup(scopes: Seq<ScopeView>, name: Seq<char>) -> Option<(int, ObjectInfoView)> {
    lookup_from(scopes, scopes.len() - 1, name)
}

/// Whether the scope `at` or one of those it descends from is of `kind`.
pub open spec fn within_from(scopes: Seq<ScopeView>, at: int, kind: ContextType) -> bool
    decreases at,
{
    if !(0 <= at < scopes.len()) {
        false
    } else if scopes[at].kind == kind {
        true
    } else {
        match scopes[at].parent {
            Some(p) => 0 <= p < at && within_from(scopes, p, kind),
            None => false,
        }
    }
}

/// The scopes that a walk from the scope `at` along the parents visits, in
/// the order of the visit.
pub open spec fn chain_from(scopes: Seq<ScopeView>, at: int) -> Seq<int>
    decreases at,
{
    if !(0 <= at < scopes.len()) {
        Seq::empty()
    } else {
        match scopes[at].parent {
            Some(p) => if 0 <= p < at {
                seq![at] + chain_from(scopes, p)
            } else {
                seq![at]
            },
            None => seq![at],
        }
    }
}

/// Whether the scope `new` continues the scope `old`: it is of the same
/// kind under the same parent, and every binding of `old` is still there
/// with its declared type and its mutability, a constant with its value too.
pub open spec fn keeps(old: ScopeView, new: ScopeView) -> bool {
    &&& old.kind == new.kind
    &&& old.parent == new.parent
    &&& forall|n: Seq<char>| #[trigger]
        old.bindings.contains_key(n) ==> {
            &&& new.bindings.contains_key(n)
            &&& new.bindings[n].type_ == old.bindings[n].type_
            &&& new.bindings[n].is_mut == old.bindings[n].is_mut
            &&& !old.bindings[n].is_mut ==> new.bindings[n] == old.bindings[n]
        }
}

/// Whether the context `new` continues the context `old`: the same scopes
/// are open, each continues what it was, and only the current scope has new
/// names.
pub open spec fn extends(old: Seq<ScopeView>, new: Seq<ScopeView>) -> bool {
    &&& new.len() == old.len()
    &&& forall|i: int|
        0 <= i < old.len() ==> keeps(old[i], #[trigger] new[i]) && (i < old.len() - 1
            ==> new[i].bindings.dom() == old[i].bindings.dom())
}

/// Whether the context `new` has the names of the context `old`: the same
/// scopes are open, and each declares the names that it declared.
pub open spec fn same_names(old: Seq<ScopeView>, new: Seq<ScopeView>) -> bool {
    &&& new.len() == old.len()
    &&& forall|i: int|
        0 <= i < old.len() ==> (#[trigger] new[i]).bindings.dom() == old[i].bindings.dom()
}

/// Where a context has the names of an earlier one, a name resolves in it
/// exactly where it resolved before, and in the same scope: what was
/// declared in scopes that are left resolves no more, and nothing else is
/// new.
pub proof fn law_names_stay(before: Seq<ScopeView>, after: Seq<ScopeView>, at: int, name: Seq<char>)
    requires
        extends(before, after),
        same_names(before, after),
    ensures
        lookup_from(after, at, name) is Some <==> lookup_from(before, at, name) is Some,
        lookup_from(after, at, name) is Some ==> lookup_from(after, at, name)->Some_0.0 == lookup_from(
            before,
            at,
            name,
        )->Some_0.0,
    decreases at,
{
    if 0 <= at < before.len() {
        assert(keeps(before[at], after[at]));
        assert(after[at].bindings.dom() == before[at].bindings.dom());
        assert(after[at].bindings.contains_key(name) == after[at].bindings.dom().contains(name));
        assert(before[at].bindings.contains_key(name) == before[at].bindings.dom().contains(name));
        if !before[at].bindings.contains_key(name) {
            match before[at].parent {
                Some(p) => {
                    if 0 <= p < at {
                        law_names_stay(before, after, p, name);
                    }
                },
                None => {},
            }
        }
    }
}

/// Whether every binding of the context is in order.
pub open spec fn sound(scopes: Seq<ScopeView>) -> bool {
    forall|i: int, n: Seq<char>|
        0 <= i < scopes.len() && #[trigger] scopes[i].bindings.contains_key(n)
            ==> scopes[i].bindings[n].wf()
}

/// A context continues itself.
pub proof fn lemma_extends_refl(a: Seq<ScopeView>)
    ensures
        extends(a, a),
{
}

/// The relation of continuing is transitive.
pub proof fn lemma_extends_trans(a: Seq<ScopeView>, b: Seq<ScopeView>, c: Seq<ScopeView>)
    requires
        extends(a, b),
        extends(b, c),
    ensures
        extends(a, c),
{
    assert forall|i: int| 0 <= i < a.len() implies keeps(a[i], #[trigger] c[i]) && (i < a.len() - 1
        ==> c[i].bindings.dom() == a[i].bindings.dom()) by {
        assert(keeps(a[i], b[i]));
        assert(keeps(b[i], c[i]));
        assert forall|n: Seq<char>| #[trigger] a[i].bindings.contains_key(n) implies {
            &&& c[i].bindings.contains_key(n)
            &&& c[i].bindings[n].type_ == a[i].bindings[n].type_
            &&& c[i].bindings[n].is_mut == a[i].bindings[n].is_mut
            &&& !a[i].bindings[n].is_mut ==> c[i].bindings[n] == a[i].bindings[n]
        } by {
            assert(b[i].bindings.contains_key(n));
        }
    }
}

/// A constant keeps its value: whatever a context goes through while its
/// scopes stay open, a binding that is not mutable is found unchanged in the
/// scope that declared it.
pub proof fn law_constants_stay(old: Seq<ScopeView>, new: Seq<ScopeView>, i: int, name: Seq<char>)
    requires
        extends(old, new),
        0 <= i < old.len(),
        old[i].bindings.contains_key(name),
        !old[i].bindings[name].is_mut,
    ensures
        new[i].bindings.contains_key(name),
        new[i].bindings[name] == old[i].bindings[name],
{
    assert(keeps(old[i], new[i]));
}

/// A name resolves to the binding of the nearest enclosing scope that
/// declares it: the lookup from a scope gives a binding of a scope on its
/// chain of parents, and no scope before that one on the chain declares the
/// name; it gives nothing only where no scope on the chain declares the name.
pub proof fn law_nearest_scope(scopes: Seq<ScopeView>, at: int, name: Seq<char>)
    requires
        0 <= at < scopes.len(),
    ensures
        match lookup_from(scopes, at, name) {
            Some((k, info)) => exists|j: int|
                {
                    &&& 0 <= j < chain_from(scopes, at).len()
                    &&& #[trigger] chain_from(scopes, at)[j] == k
                    &&& 0 <= k < scopes.len()
                    &&& scopes[k].bindings.contains_key(name)
                    &&& scopes[k].bindings[name] == info
                    &&& forall|h: int|
                        0 <= h < j ==> !scopes[#[trigger] chain_from(scopes, at)[h]].bindings.contains_key(
                            name,
                        )
                },
            None => forall|h: int|
                0 <= h < chain_from(scopes, at).len() ==> !scopes[#[trigger] chain_from(
                    scopes,
                    at,
                )[h]].bindings.contains_key(name),
        },
    decreases at,
{
    let chain = chain_from(scopes, at);
    if scopes[at].bindings.contains_key(name) {
        assert(chain[0] == at);
    } else {
        match scopes[at].parent {
            Some(p) => {
                if 0 <= p < at {
                    law_nearest_scope(scopes, p, name);
                    let rest = chain_from(scopes, p);
                    assert(chain =~= seq![at] + rest);
                    assert(forall|h: int| 0 <= h < rest.len() ==> chain[h + 1] == rest[h]);
                    match lookup_from(scopes, p, name) {
                        Some((k, info)) => {
                            let j = choose|j: int|
                                {
                                    &&& 0 <= j < rest.len()
                                    &&& #[trigger] rest[j] == k
                                    &&& 0 <= k < scopes.len()
                                    &&& scopes[k].bindings.contains_key(name)
                                    &&& scopes[k].bindings[name] == info
                                    &&& forall|h: int|
                                        0 <= h < j ==> !scopes[#[trigger] rest[h]].bindings.contains_key(
                                            name,
                                        )
                                };
                            assert(chain[j + 1] == k);
                            assert forall|h: int| 0 <= h < j + 1 implies !scopes[#[trigger] chain[h]].bindings.contains_key(
                                name,
                            ) by {
                                if h > 0 {
                                    assert(chain[h] == rest[h - 1]);
                                }
                            }
                        },
                        None => {
                            assert forall|h: int| 0 <= h < chain.len() implies !scopes[#[trigger] chain[h]].bindings.contains_key(
                                name,
                            ) by {
                                if h > 0 {
                                    assert(chain[h] == rest[h - 1]);
                                }
                            }
                        },
                    }
                } else {
                    assert(chain =~= seq![at]);
                }
            },
            None => {
                assert(chain =~= seq![at]);
            },
        }
    }
}

/// When a scope is left, the context is what it was before the scope was
/// entered, up to assignments to variables of the older scopes: whatever was
/// declared inside is gone with the scope.
pub proof fn law_scope_exit(before: Seq<ScopeView>, scope: ScopeView, inside: Seq<ScopeView>)
    requires
        extends(before.push(scope), inside),
    ensures
        extends(before, inside.drop_last()),
        same_names(before, inside.drop_last()),
{
    let entered = before.push(scope);
    let left = inside.drop_last();
    assert forall|i: int| 0 <= i < before.len() implies keeps(before[i], #[trigger] left[i])
        && left[i].bindings.dom() == before[i].bindings.dom() by {
        assert(entered[i] == before[i]);
        assert(left[i] == inside[i]);
        assert(keeps(entered[i], inside[i]));
    }
}

/// A context in order stays in order when a binding that is in order is
/// put into one of its scopes.
pub proof fn lemma_sound_insert(
    scopes: Seq<ScopeView>,
    k: int,
    name: Seq<char>,
    info: ObjectInfoView,
)
    requires
        sound(scopes),
        0 <= k < scopes.len(),
        info.wf(),
    ensures
        sound(
            scopes.update(
                k,
                ScopeView { bindings: scopes[k].bindings.insert(name, info), ..scopes[k] },
            ),
        ),
{
    let after = scopes.update(
        k,
        ScopeView { bindings: scopes[k].bindings.insert(name, info), ..scopes[k] },
    );
    assert forall|i: int, n: Seq<char>|
        0 <= i < after.len() && #[trigger] after[i].bindings.contains_key(n) implies after[i].bindings[n].wf() by {
        if i == k && n == name {
        } else {
            assert(scopes[i].bindings.contains_key(n));
        }
    }
}

/// A context in order stays in order when an empty scope is opened.
pub proof fn lemma_sound_push(scopes: Seq<ScopeView>, scope: ScopeView)
    requires
        sound(scopes),
        scope.bindings == Map::<Seq<char>, ObjectInfoView>::empty(),
    ensures
        sound(scopes.push(scope)),
{
    let after = scopes.push(scope);
    assert forall|i: int, n: Seq<char>|
        0 <= i < after.len() && #[trigger] after[i].bindings.contains_key(n) implies after[i].bindings[n].wf() by {
        if i < scopes.len() {
            assert(scopes[i].bindings.contains_key(n));
        }
    }
}

/// A context in order stays in order when its current scope is left.
pub proof fn lemma_sound_drop(scopes: Seq<ScopeView>)
    requires
        sound(scopes),
        scopes.len() > 0,
    ensures
        sound(scopes.drop_last()),
{
    let after = scopes.drop_last();
    assert forall|i: int, n: Seq<char>|
        0 <= i < after.len() && #[trigger] after[i].bindings.contains_key(n) implies after[i].bindings[n].wf() by {
        assert(scopes[i].bindings.contains_key(n));
    }
}

/// Where every entry of a list is in order, so is every binding that the
/// list gives.
pub proof fn lemma_first_wins_sound(store: Seq<(String, ObjectInfo)>)
    requires
        forall|i: int| 0 <= i < store.len() ==> (#[trigger] store[i]).1@.wf(),
    ensures
        forall|n: Seq<char>| #[trigger]
            first_wins(store).contains_key(n) ==> first_wins(store)[n].wf(),
    decreases store.len(),
{
    if store.len() > 0 {
        lemma_first_wins_sound(store.drop_last());
        assert(store.last() == store[store.len() - 1]);
        assert forall|n: Seq<char>| #[trigger]
            first_wins(store).contains_key(n) implies first_wins(store)[n].wf() by {
            if first_wins(store.drop_last()).contains_key(n) {
            } else {
                assert(n == store.last().0@);
            }
        }
    }
}

impl View for Context {
    type V = Seq<ScopeView>;

    closed spec fn view(&self) -> Seq<ScopeView> {
        Seq::new(self.scopes@.len(), |i: int| self.scopes@[i].view())
    }
}

fn find(store: &Vec<(String, ObjectInfo)>, key: &String) -> (r: Option<usize>)
    ensures
        match r {
            Some(i) => i < store@.len() && store@[i as int].0@ == key@,
            None => forall|i: int| 0 <= i < store@.len() ==> store@[i].0@ != key@,
        },
        r is Some <==> entries_map(store@).contains_key(key@),
{
    let mut i: usize = 0;
    proof {
        lemma_entries_contains(store@, key@);
    }
    while i < store.len()
        invariant
            i <= store@.len(),
            forall|k: int| 0 <= k < i ==> store@[k].0@ != key@,
            entries_map(store@).contains_key(key@) <==> exists|i: int|
                0 <= i < store@.len() && #[trigger] store@[i].0@ == key@,
        decreases store@.len() - i,
    {
        if store[i].0 == *key {
            return Some(i);
        }
        i = i + 1;
    }
    None
}

impl Context {
    /// The context is consistent: the global scope is there and has no
    /// parent, every other scope has an older scope as its parent, and no
    /// scope declares a name twice.
    pub closed spec fn wf(&self) -> bool {
        &&& self.scopes@.len() >= 1
        &&& self.scopes@[0].parent is None
        &&& forall|i: int|
            0 < i < self.scopes@.len() ==> (#[trigger] self.scopes@[i]).parent is Some
                && self.scopes@[i].parent->Some_0 < i
        &&& forall|i: int|
            0 <= i < self.scopes@.len() ==> unique_names((#[trigger] self.scopes@[i]).store@)
    }

    /// A consistent context has its global scope, without a parent; the
    /// parent of any other scope is an older scope.
    pub proof fn lemma_wf_view(&self)
        requires
            self.wf(),
        ensures
            self@.len() >= 1,
            self@[0].parent is None,
            forall|i: int|
                0 < i < self@.len() ==> (#[trigger] self@[i]).parent is Some && 0
                    <= self@[i].parent->Some_0 < i,
    {
    }

    /// A context of one scope, the global one, with the bindings of `store`.
    /// Where `store` enters a name twice, the first entry stands.
    pub fn make_global(store: Vec<(String, ObjectInfo)>) -> (r: Self)
        ensures
            r.wf(),
            r@ == seq![
                ScopeView { kind: ContextType::Global, bindings: first_wins(store@), parent: None },
            ],
            (forall|i: int| 0 <= i < store@.len() ==> (#[trigger] store@[i]).1@.wf()) ==> sound(r@),
    {
        proof {
            if forall|i: int| 0 <= i < store@.len() ==> (#[trigger] store@[i]).1@.wf() {
                lemma_first_wins_sound(store@);
            }
        }
        let mut kept: Vec<(String, ObjectInfo)> = Vec::new();
        let mut store = store;
        let ghost given = store@;
        let n = store.len();
        let mut rest: Vec<(String, ObjectInfo)> = Vec::new();
        // Entries are taken from the back, so turn the list round first.
        while store.len() > 0
            invariant
                store@.len() + rest@.len() == given.len(),
                forall|k: int| 0 <= k < store@.len() ==> store@[k] == given[k],
                forall|k: int|
                    0 <= k < rest@.len() ==> rest@[k] == given[given.len() - 1 - k],
            decreases store@.len(),
        {
            let entry = store.pop().unwrap();
            rest.push(entry);
        }
        assert(given.subrange(0, 0) =~= Seq::<(String, ObjectInfo)>::empty());
        while rest.len() > 0
            invariant
                rest@.len() <= given.len(),
                forall|k: int|
                    0 <= k < rest@.len() ==> rest@[k] == given[given.len() - 1 - k],
                unique_names(kept@),
                entries_map(kept@) == first_wins(given.subrange(0, given.len() - rest@.len())),
            decreases rest@.len(),
        {
            let ghost done = given.len() - rest@.len();
            let entry = rest.pop().unwrap();
            assert(entry == given[done]);
            assert(given.subrange(0, done + 1).drop_last() =~= given.subrange(0, done));
            if find(&kept, &entry.0).is_none() {
                proof {
                    lemma_entries_push(kept@, entry);
                }
                kept.push(entry);
            }
        }
        assert(given.subrange(0, given.len() as int) =~= given);
        let scope = Scope { type_: ContextType::Global, store: kept, parent: None };
        let mut scopes: Vec<Scope> = Vec::new();
        scopes.push(scope);
        let r = Context { scopes };
        assert(r@ =~= seq![
            ScopeView { kind: ContextType::Global, bindings: first_wins(given), parent: None },
        ]);
        r
    }

    /// The context `parent` with a new, empty scope of kind `type_` under
    /// its current scope.
    pub fn make_from(parent: Context, type_: ContextType) -> (r: Self)
        requires
            parent.wf(),
        ensures
            r.wf(),
            r@ == parent@.push(
                ScopeView { kind: type_, bindings: Map::empty(), parent: Some(parent@.len() - 1) },
            ),
    {
        let mut r = parent;
        r.enter(type_);
        r
    }

    /// How many scopes are open.
    pub fn depth(&self) -> (r: usize)
        ensures
            r == self@.len(),
    {
        self.scopes.len()
    }

    /// Opens a new, empty scope of kind `type_` under the current scope.
    pub fn enter(&mut self, type_: ContextType)
        requires
            old(self).wf(),
        ensures
            final(self).wf(),
            final(self)@ == old(self)@.push(
                ScopeView {
                    kind: type_,
                    bindings: Map::empty(),
                    parent: Some(old(self)@.len() - 1),
                },
            ),
    {
        let parent = self.scopes.len() - 1;
        self.scopes.push(Scope { type_, store: Vec::new(), parent: Some(parent) });
        assert(self@ =~= old(self)@.push(
            ScopeView { kind: type_, bindings: Map::empty(), parent: Some(old(self)@.len() - 1) },
        ));
    }

    /// Opens a new, empty function scope under the global scope: the body
    /// of a function sees the global scope and nothing of its caller.
    pub fn enter_function(&mut self)
        requires
            old(self).wf(),
        ensures
            final(self).wf(),
            final(self)@ == old(self)@.push(
                ScopeView { kind: ContextType::Function, bindings: Map::empty(), parent: Some(0) },
            ),
    {
        self.scopes.push(
            Scope { type_: ContextType::Function, store: Vec::new(), parent: Some(0) },
        );
        assert(self@ =~= old(self)@.push(
            ScopeView { kind: ContextType::Function, bindings: Map::empty(), parent: Some(0) },
        ));
    }

    /// Leaves the current scope, with all it declares. The global scope
    /// stays.
    pub fn exit(&mut self)
        requires
            old(self).wf(),
        ensures
            final(self).wf(),
            final(self)@ == if old(self)@.len() > 1 {
                old(self)@.drop_last()
            } else {
                old(self)@
            },
    {
        if self.scopes.len() > 1 {
            self.scopes.pop();
            assert(self@ =~= old(self)@.drop_last());
        }
    }

    /// Declares `name` in the current scope, unless the scope declares it
    /// already; says whether it did. The parents are not looked at.
    pub fn set(&mut self, name: String, type_: Type, value: Object, is_mut: bool) -> (r: bool)
        requires
            old(self).wf(),
        ensures
            final(self).wf(),
            r == !old(self)@.last().bindings.contains_key(name@),
            r ==> final(self)@ == old(self)@.update(
                old(self)@.len() - 1,
                ScopeView {
                    bindings: old(self)@.last().bindings.insert(
                        name@,
                        ObjectInfoView { is_mut, type_, value: value@ },
                    ),
                    ..old(self)@.last()
                },
            ),
            !r ==> final(self)@ == old(self)@,
            extends(old(self)@, final(self)@),
    {
        let top = self.scopes.len() - 1;
        if find(&self.scopes[top].store, &name).is_some() {
            return false;
        }
        let entry = (name, ObjectInfo { value, is_mut, type_ });
        proof {
            lemma_entries_push(self.scopes@[top as int].store@, entry);
        }
        let scope = &mut self.scopes[top];
        scope.store.push(entry);
        assert(self@ =~= old(self)@.update(
            old(self)@.len() - 1,
            ScopeView {
                bindings: old(self)@.last().bindings.insert(
                    name@,
                    ObjectInfoView { is_mut, type_, value: value@ },
                ),
                ..old(self)@.last()
            },
        ));
        true
    }

    /// Gives `name` the new value in the nearest scope that declares it;
    /// says whether it did. It does not where no scope on the way declares
    /// the name, or the binding is not mutable.
    pub fn mutate(&mut self, name: String, value: Object) -> (r: bool)
        requires
            old(self).wf(),
        ensures
            final(self).wf(),
            match lookup(old(self)@, name@) {
                Some((k, info)) => if info.is_mut {
                    r && final(self)@ == old(self)@.update(
                        k,
                        ScopeView {
                            bindings: old(self)@[k].bindings.insert(
                                name@,
                                ObjectInfoView { value: value@, ..info },
                            ),
                            ..old(self)@[k]
                        },
                    )
                } else {
                    !r && final(self)@ == old(self)@
                },
                None => !r && final(self)@ == old(self)@,
            },
            extends(old(self)@, final(self)@),
            same_names(old(self)@, final(self)@),
    {
        let mut at = self.scopes.len() - 1;
        loop
            invariant
                self.wf(),
                *self == *old(self),
                at < self.scopes@.len(),
                lookup_from(self@, at as int, name@) == lookup(self@, name@),
            decreases at,
        {
            match find(&self.scopes[at].store, &name) {
                Some(j) => {
                    proof {
                        lemma_entries_value(self.scopes@[at as int].store@, j as int);
                    }
                    if !self.scopes[at].store[j].1.is_mut {
                        return false;
                    }
                    let ghost store = self.scopes@[at as int].store@;
                    let scope = &mut self.scopes[at];
                    let entry = &mut scope.store[j];
                    entry.1.value = value;
                    proof {
                        let entry = self.scopes@[at as int].store@[j as int];
                        lemma_entries_update(store, j as int, entry);
                        assert(self.scopes@[at as int].store@ =~= store.update(j as int, entry));
                        let k = at as int;
                        let info = old(self)@[k].bindings[name@];
                        assert(self@ =~= old(self)@.update(
                            k,
                            ScopeView {
                                bindings: old(self)@[k].bindings.insert(
                                    name@,
                                    ObjectInfoView { value: value@, ..info },
                                ),
                                ..old(self)@[k]
                            },
                        ));
                        assert forall|i: int| 0 <= i < old(self)@.len() implies keeps(
                            old(self)@[i],
                            #[trigger] self@[i],
                        ) && self@[i].bindings.dom() == old(self)@[i].bindings.dom() by {
                            if i == k {
                                assert(self@[i].bindings.dom() =~= old(self)@[i].bindings.dom());
                            }
                        }
                    }
                    return true;
                },
                None => {},
            }
            match self.scopes[at].parent {
                Some(p) => {
                    at = p;
                },
                None => {
                    return false;
                },
            }
        }
    }

    /// Whether the current scope declares `name`. The parents are not
    /// looked at.
    pub fn has(&self, name: &str) -> (r: bool)
        requires
            self.wf(),
        ensures
            r == self@.last().bindings.contains_key(name@),
    {
        let key = owned(name);
        let top = self.scopes.len() - 1;
        find(&self.scopes[top].store, &key).is_some()
    }

    /// A copy of the binding that `name` resolves to: that of the nearest
    /// scope, from the current one along the parents, that declares it.
    pub fn resolve(&self, name: &str) -> (r: Option<ObjectInfo>)
        requires
            self.wf(),
        ensures
            match lookup(self@, name@) {
                Some((_, info)) => r is Some && r->Some_0@ == info,
                None => r is None,
            },
    {
        let key = owned(name);
        let mut at = self.scopes.len() - 1;
        loop
            invariant
                self.wf(),
                key@ == name@,
                at < self.scopes@.len(),
                lookup_from(self@, at as int, name@) == lookup(self@, name@),
            decreases at,
        {
            match find(&self.scopes[at].store, &key) {
                Some(j) => {
                    proof {
                        lemma_entries_value(self.scopes@[at as int].store@, j as int);
                    }
                    return Some(self.scopes[at].store[j].1.clone());
                },
                None => {},
            }
            match self.scopes[at].parent {
                Some(p) => {
                    at = p;
                },
                None => {
                    return None;
                },
            }
        }
    }

    /// Whether the current scope, or a scope it descends from, is of the
    /// kind `ctx_type`.
    pub fn in_context_type(&self, ctx_type: ContextType) -> (r: bool)
        requires
            self.wf(),
        ensures
            r == within_from(self@, self@.len() - 1, ctx_type),
    {
        let mut at = self.scopes.len() - 1;
        loop
            invariant
                self.wf(),
                at < self.scopes@.len(),
                within_from(self@, at as int, ctx_type) == within_from(
                    self@,
                    self@.len() - 1,
                    ctx_type,
                ),
            decreases at,
        {
            if self.scopes[at].type_ == ctx_type {
                return true;
            }
            match self.scopes[at].parent {
                Some(p) => {
                    at = p;
                },
                None => {
                    return false;
                },
            }
        }
    }
}

} // verus!
