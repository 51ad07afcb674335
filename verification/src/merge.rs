//! Groups records by namespace and folds the member blocks of a class into the
//! class itself.

use vstd::prelude::*;
use vstd::string::*;
use crate::record::{
    copy_text_opt, every, lemma_text_le_antisym, lemma_text_le_refl, lemma_text_le_total,
    lemma_text_le_trans, text_opt, views, Record, TypeDefKind, TypeDefLine,
};
use crate::text::{str_at_most, text_le};

verus! {

/// The records of one namespace, in the order in which they are rendered.
#[derive(Debug, Clone)]
pub struct NamespaceGroup {
    /// The namespace; `None` for the top level.
    pub namespace: Option<String>,
    /// Its records: the classes first, then the others.
    pub defs: Vec<TypeDefLine>,
}

/// The mathematical value of a [`NamespaceGroup`].
pub struct Group {
    pub namespace: Option<Seq<char>>,
    pub defs: Seq<Record>,
}

impl View for NamespaceGroup {
    type V = Group;

    open spec fn view(&self) -> Group {
        Group { namespace: text_opt(self.namespace), defs: views(self.defs@) }
    }
}

/// The values of a sequence of groups, in order.
pub open spec fn group_views(s: Seq<NamespaceGroup>) -> Seq<Group> {
    Seq::new(s.len(), |i: int| s[i]@)
}

/// The texts of a sequence of namespace keys, in order.
pub open spec fn key_views(s: Seq<Option<String>>) -> Seq<Option<Seq<char>>> {
    Seq::new(s.len(), |i: int| text_opt(s[i]))
}

/// The order of namespaces: the top level first, then the named ones in lexical
/// order. `a` comes at or before `b`.
pub open spec fn key_le(a: Option<Seq<char>>, b: Option<Seq<char>>) -> bool {
    match (a, b) {
        (None, _) => true,
        (Some(_), None) => false,
        (Some(x), Some(y)) => text_le(x, y),
    }
}

/// `keys` with `k` added at its place in the order of namespaces, unless it is there.
pub open spec fn insert_key(keys: Seq<Option<Seq<char>>>, k: Option<Seq<char>>) -> Seq<
    Option<Seq<char>>,
>
    decreases keys.len(),
{
    if keys.len() == 0 {
        seq![k]
    } else if keys.last() == k {
        keys
    } else if key_le(keys.last(), k) {
        keys.push(k)
    } else {
        insert_key(keys.drop_last(), k).push(keys.last())
    }
}

/// The namespaces that occur in `s`, each once, in the order of namespaces.
pub open spec fn namespaces_of(s: Seq<Record>) -> Seq<Option<Seq<char>>>
    decreases s.len(),
{
    if s.len() == 0 {
        Seq::empty()
    } else {
        insert_key(namespaces_of(s.drop_last()), s.last().js_mod)
    }
}

/// A class body with one more member block: the block follows on a line of its own,
/// or stands alone where the body was empty.
pub open spec fn joined_def(class_def: Seq<char>, member_def: Seq<char>) -> Seq<char> {
    if class_def.len() == 0 {
        member_def
    } else {
        class_def + seq!['\n'] + member_def
    }
}

/// `class` with the member block `member_def` folded into its body.
pub open spec fn with_members(class: Record, member_def: Seq<char>) -> Record {
    Record { def: joined_def(class.def, member_def), ..class }
}

/// The class table `t` with the class `c` put at the place of its name; a class of
/// the same name that was there is replaced.
pub open spec fn put_class(t: Seq<Record>, c: Record) -> Seq<Record>
    decreases t.len(),
{
    if t.len() == 0 {
        seq![c]
    } else if t.last().name == c.name {
        t.drop_last().push(c)
    } else if text_le(t.last().name, c.name) {
        t.push(c)
    } else {
        put_class(t.drop_last(), c).push(t.last())
    }
}

/// The class table `t` with the member block `m` folded into the class of its name.
pub open spec fn add_members(t: Seq<Record>, m: Record) -> Seq<Record> {
    Seq::new(
        t.len(),
        |i: int|
            if t[i].name == m.name {
                with_members(t[i], m.def)
            } else {
                t[i]
            },
    )
}

/// The class table after the records of `s`, taken in order: for each class name the
/// last `Struct` of that name, with the `Impl` blocks of that name that follow it
/// folded in, in order; the classes stand in lexical order of their names. An `Impl`
/// that no `Struct` of its name precedes leaves no trace.
pub open spec fn class_table(s: Seq<Record>) -> Seq<Record>
    decreases s.len(),
{
    if s.len() == 0 {
        Seq::empty()
    } else {
        let t = class_table(s.drop_last());
        let r = s.last();
        if r.kind == TypeDefKind::Struct {
            put_class(t, r)
        } else if r.kind == TypeDefKind::Impl {
            add_members(t, r)
        } else {
            t
        }
    }
}

/// A record that is rendered as it stands: neither a class nor a member block.
pub open spec fn is_plain(r: Record) -> bool {
    r.kind != TypeDefKind::Struct && r.kind != TypeDefKind::Impl
}

/// The records of `t` that live in the namespace `ns`, in order.
pub open spec fn members_of(t: Seq<Record>, ns: Option<Seq<char>>) -> Seq<Record>
    decreases t.len(),
{
    if t.len() == 0 {
        Seq::empty()
    } else if t.last().js_mod == ns {
        members_of(t.drop_last(), ns).push(t.last())
    } else {
        members_of(t.drop_last(), ns)
    }
}

/// The plain records of `s` that live in the namespace `ns`, in order.
pub open spec fn plain_members_of(s: Seq<Record>, ns: Option<Seq<char>>) -> Seq<Record>
    decreases s.len(),
{
    if s.len() == 0 {
        Seq::empty()
    } else if is_plain(s.last()) && s.last().js_mod == ns {
        plain_members_of(s.drop_last(), ns).push(s.last())
    } else {
        plain_members_of(s.drop_last(), ns)
    }
}

/// The group of the namespace `ns`: its classes, members folded in, then its plain
/// records.
pub open spec fn group_of(s: Seq<Record>, ns: Option<Seq<char>>) -> Group {
    Group { namespace: ns, defs: members_of(class_table(s), ns) + plain_members_of(s, ns) }
}

/// The groups of `s`: one for each namespace that occurs in it, in the order of
/// namespaces.
pub open spec fn grouped(s: Seq<Record>) -> Seq<Group> {
    let keys = namespaces_of(s);
    Seq::new(keys.len(), |i: int| group_of(s, keys[i]))
}

/// Where `insert_key` puts a key.
pub proof fn lemma_insert_key_at(keys: Seq<Option<Seq<char>>>, k: Option<Seq<char>>, j: int)
    requires
        0 <= j <= keys.len(),
        forall|i: int| j <= i < keys.len() ==> !key_le(#[trigger] keys[i], k),
        j > 0 ==> key_le(keys[j - 1], k),
    ensures
        insert_key(keys, k) == if j > 0 && keys[j - 1] == k {
            keys
        } else {
            keys.insert(j, k)
        },
    decreases keys.len() - j,
{
    if keys.len() == 0 {
        assert(keys.insert(0, k) =~= seq![k]);
    } else if j == keys.len() {
        assert(keys.insert(j, k) =~= keys.push(k));
    } else {
        let u = keys.drop_last();
        assert(!key_le(keys[keys.len() - 1], k));
        if keys.last() == k {
            match k {
                Some(x) => {
                    lemma_text_le_refl(x);
                },
                None => {},
            }
        }
        assert forall|i: int| j <= i < u.len() implies !key_le(#[trigger] u[i], k) by {
            assert(u[i] == keys[i]);
        }
        lemma_insert_key_at(u, k, j);
        if j > 0 && keys[j - 1] == k {
            assert(u.push(keys.last()) =~= keys);
        } else {
            assert(u.insert(j, k).push(keys.last()) =~= keys.insert(j, k));
        }
    }
}

/// Where `put_class` puts a class.
pub proof fn lemma_put_class_at(t: Seq<Record>, c: Record, j: int)
    requires
        0 <= j <= t.len(),
        forall|i: int| j <= i < t.len() ==> !text_le((#[trigger] t[i]).name, c.name),
        j > 0 ==> text_le(t[j - 1].name, c.name),
    ensures
        put_class(t, c) == if j > 0 && t[j - 1].name == c.name {
            t.update(j - 1, c)
        } else {
            t.insert(j, c)
        },
    decreases t.len() - j,
{
    if t.len() == 0 {
        assert(t.insert(0, c) =~= seq![c]);
    } else if j == t.len() {
        if t.last().name == c.name {
            assert(t.drop_last().push(c) =~= t.update(j - 1, c));
        } else {
            assert(t.insert(j, c) =~= t.push(c));
        }
    } else {
        let u = t.drop_last();
        assert(!text_le(t[t.len() - 1].name, c.name));
        if t.last().name == c.name {
            lemma_text_le_refl(c.name);
        }
        assert forall|i: int| j <= i < u.len() implies !text_le((#[trigger] u[i]).name, c.name) by {
            assert(u[i] == t[i]);
        }
        lemma_put_class_at(u, c, j);
        if j > 0 && t[j - 1].name == c.name {
            assert(u.update(j - 1, c).push(t.last()) =~= t.update(j - 1, c));
        } else {
            assert(u.insert(j, c).push(t.last()) =~= t.insert(j, c));
        }
    }
}

/// A record that declares a class.
pub open spec fn is_class(r: Record) -> bool {
    r.kind == TypeDefKind::Struct
}

/// What holds of every class of `t` and of `c` holds of every class of
/// `put_class(t, c)`.
pub proof fn lemma_put_class_every(t: Seq<Record>, c: Record, p: spec_fn(Record) -> bool)
    requires
        every(t, p),
        p(c),
    ensures
        every(put_class(t, c), p),
    decreases t.len(),
{
    if t.len() == 0 {
    } else {
        let u = t.drop_last();
        assert forall|i: int| 0 <= i < u.len() implies p(#[trigger] u[i]) by {
            assert(u[i] == t[i]);
        }
        assert(p(t[t.len() - 1]));
        if t.last().name == c.name {
        } else if text_le(t.last().name, c.name) {
        } else {
            lemma_put_class_every(u, c, p);
        }
    }
}

/// The class table holds classes only.
pub proof fn lemma_class_table_holds_classes(s: Seq<Record>)
    ensures
        every(class_table(s), |r: Record| is_class(r)),
    decreases s.len(),
{
    if s.len() > 0 {
        let t = class_table(s.drop_last());
        let r = s.last();
        lemma_class_table_holds_classes(s.drop_last());
        if r.kind == TypeDefKind::Struct {
            lemma_put_class_every(t, r, |r: Record| is_class(r));
        } else if r.kind == TypeDefKind::Impl {
            assert forall|i: int| 0 <= i < add_members(t, r).len() implies is_class(
                #[trigger] add_members(t, r)[i],
            ) by {
                assert(is_class(t[i]));
            }
        }
    }
}

/// What holds of every record of `t` holds of those that live in `ns`.
pub proof fn lemma_members_every(t: Seq<Record>, ns: Option<Seq<char>>, p: spec_fn(Record) -> bool)
    requires
        every(t, p),
    ensures
        every(members_of(t, ns), p),
    decreases t.len(),
{
    if t.len() > 0 {
        let u = t.drop_last();
        assert forall|i: int| 0 <= i < u.len() implies p(#[trigger] u[i]) by {
            assert(u[i] == t[i]);
        }
        assert(p(t[t.len() - 1]));
        lemma_members_every(u, ns, p);
    }
}

/// The plain members of a namespace are plain, and what holds of every record of
/// `s` holds of them.
pub proof fn lemma_plain_members_every(
    s: Seq<Record>,
    ns: Option<Seq<char>>,
    p: spec_fn(Record) -> bool,
)
    requires
        every(s, p),
    ensures
        every(plain_members_of(s, ns), p),
        every(plain_members_of(s, ns), |r: Record| is_plain(r)),
    decreases s.len(),
{
    if s.len() > 0 {
        let u = s.drop_last();
        assert forall|i: int| 0 <= i < u.len() implies p(#[trigger] u[i]) by {
            assert(u[i] == s[i]);
        }
        assert(p(s[s.len() - 1]));
        lemma_plain_members_every(u, ns, p);
    }
}

/// Whether the classes of `t` stand in lexical order of their names, no name twice.
pub open spec fn in_name_order(t: Seq<Record>) -> bool {
    forall|i: int, j: int|
        #![trigger t[i], t[j]]
        0 <= i < j < t.len() ==> t[i].name != t[j].name && text_le(t[i].name, t[j].name)
}

/// Putting a class into a table in name order leaves it in name order.
pub proof fn lemma_put_class_in_name_order(t: Seq<Record>, c: Record)
    requires
        in_name_order(t),
    ensures
        in_name_order(put_class(t, c)),
    decreases t.len(),
{
    let r = put_class(t, c);
    if t.len() == 0 {
    } else {
        let u = t.drop_last();
        let last = t.last();
        assert forall|i: int, j: int|
            #![trigger u[i], u[j]]
            0 <= i < j < u.len() implies u[i].name != u[j].name
            && text_le(u[i].name, u[j].name) by {
            assert(u[i] == t[i] && u[j] == t[j]);
        }
        if last.name == c.name {
            assert forall|i: int, j: int|
            #![trigger r[i], r[j]]
            0 <= i < j < r.len() implies r[i].name != r[j].name
                && text_le(r[i].name, r[j].name) by {
                assert(r[i] == t[i]);
                assert(r[j].name == t[j].name);
            }
        } else if text_le(last.name, c.name) {
            assert forall|i: int, j: int|
            #![trigger r[i], r[j]]
            0 <= i < j < r.len() implies r[i].name != r[j].name
                && text_le(r[i].name, r[j].name) by {
                assert(r[i] == t[i]);
                if j < t.len() {
                    assert(r[j] == t[j]);
                } else if i < t.len() - 1 {
                    assert(t[i].name != t[t.len() - 1].name && text_le(
                        t[i].name,
                        t[t.len() - 1].name,
                    ));
                    lemma_text_le_trans(t[i].name, last.name, c.name);
                    if t[i].name == c.name {
                        lemma_text_le_antisym(last.name, c.name);
                    }
                }
            }
        } else {
            let p = |e: Record| e.name != last.name && text_le(e.name, last.name);
            lemma_put_class_in_name_order(u, c);
            assert forall|i: int| 0 <= i < u.len() implies p(#[trigger] u[i]) by {
                assert(u[i] == t[i]);
                assert(t[i].name != t[t.len() - 1].name && text_le(t[i].name, t[t.len() - 1].name));
            }
            lemma_text_le_total(last.name, c.name);
            lemma_put_class_every(u, c, p);
            let v = put_class(u, c);
            assert forall|i: int, j: int|
            #![trigger r[i], r[j]]
            0 <= i < j < r.len() implies r[i].name != r[j].name
                && text_le(r[i].name, r[j].name) by {
                assert(r[i] == v[i]);
                if j < v.len() {
                    assert(r[j] == v[j]);
                } else {
                    assert(p(v[i]));
                }
            }
        }
    }
}

/// The class table stands in lexical order of the class names and holds no name
/// twice.
pub proof fn law_class_table_in_name_order(s: Seq<Record>)
    ensures
        in_name_order(class_table(s)),
    decreases s.len(),
{
    if s.len() > 0 {
        let t = class_table(s.drop_last());
        let r = s.last();
        law_class_table_in_name_order(s.drop_last());
        if r.kind == TypeDefKind::Struct {
            lemma_put_class_in_name_order(t, r);
        } else if r.kind == TypeDefKind::Impl {
            let m = add_members(t, r);
            assert forall|i: int, j: int|
            #![trigger m[i], m[j]]
            0 <= i < j < m.len() implies m[i].name != m[j].name
                && text_le(m[i].name, m[j].name) by {
                assert(m[i].name == t[i].name && m[j].name == t[j].name);
            }
        }
    }
}

/// Whether the namespaces `keys` stand in the order of namespaces, none twice.
pub open spec fn in_key_order(keys: Seq<Option<Seq<char>>>) -> bool {
    forall|i: int, j: int|
        #![trigger keys[i], keys[j]]
        0 <= i < j < keys.len() ==> keys[i] != keys[j] && key_le(keys[i], keys[j])
}

/// What holds of every key of `keys` and of `k` holds of every key of
/// `insert_key(keys, k)`.
pub proof fn lemma_insert_key_every(
    keys: Seq<Option<Seq<char>>>,
    k: Option<Seq<char>>,
    p: spec_fn(Option<Seq<char>>) -> bool,
)
    requires
        forall|i: int| 0 <= i < keys.len() ==> p(#[trigger] keys[i]),
        p(k),
    ensures
        forall|i: int| 0 <= i < insert_key(keys, k).len() ==> p(#[trigger] insert_key(keys, k)[i]),
    decreases keys.len(),
{
    let r = insert_key(keys, k);
    if keys.len() == 0 {
        assert(r[0] == k);
    } else if keys.last() == k {
    } else if key_le(keys.last(), k) {
        assert forall|i: int| 0 <= i < r.len() implies p(#[trigger] r[i]) by {
            if i < keys.len() {
                assert(r[i] == keys[i]);
            }
        }
    } else {
        let u = keys.drop_last();
        assert forall|i: int| 0 <= i < u.len() implies p(#[trigger] u[i]) by {
            assert(u[i] == keys[i]);
        }
        assert(p(keys[keys.len() - 1]));
        lemma_insert_key_every(u, k, p);
        let v = insert_key(u, k);
        assert forall|i: int| 0 <= i < r.len() implies p(#[trigger] r[i]) by {
            if i < v.len() {
                assert(r[i] == v[i]);
            }
        }
    }
}

/// The order of namespaces is total, transitive, and tells distinct keys apart.
pub proof fn lemma_key_le_order(a: Option<Seq<char>>, b: Option<Seq<char>>, c: Option<Seq<char>>)
    ensures
        key_le(a, b) || key_le(b, a),
        key_le(a, b) && key_le(b, c) ==> key_le(a, c),
        key_le(a, b) && key_le(b, a) ==> a == b,
{
    match (a, b) {
        (Some(x), Some(y)) => {
            lemma_text_le_total(x, y);
            if text_le(x, y) && text_le(y, x) {
                lemma_text_le_antisym(x, y);
            }
            match c {
                Some(z) => {
                    if text_le(x, y) && text_le(y, z) {
                        lemma_text_le_trans(x, y, z);
                    }
                },
                None => {},
            }
        },
        _ => {},
    }
}

/// Adding a key to keys in order leaves them in order.
pub proof fn lemma_insert_key_in_order(keys: Seq<Option<Seq<char>>>, k: Option<Seq<char>>)
    requires
        in_key_order(keys),
    ensures
        in_key_order(insert_key(keys, k)),
    decreases keys.len(),
{
    let r = insert_key(keys, k);
    if keys.len() == 0 {
    } else if keys.last() == k {
    } else {
        let u = keys.drop_last();
        let last = keys.last();
        if key_le(last, k) {
            assert forall|i: int, j: int|
            #![trigger r[i], r[j]]
            0 <= i < j < r.len() implies r[i] != r[j] && key_le(
                r[i],
                r[j],
            ) by {
                assert(r[i] == keys[i]);
                if j < keys.len() {
                    assert(r[j] == keys[j]);
                } else if i < keys.len() - 1 {
                    assert(keys[i] != keys[keys.len() - 1] && key_le(keys[i], keys[keys.len() - 1]));
                    lemma_key_le_order(keys[i], last, k);
                    lemma_key_le_order(last, k, keys[i]);
                }
            }
        } else {
            let p = |e: Option<Seq<char>>| e != last && key_le(e, last);
            assert forall|i: int, j: int|
            #![trigger u[i], u[j]]
            0 <= i < j < u.len() implies u[i] != u[j] && key_le(
                u[i],
                u[j],
            ) by {
                assert(u[i] == keys[i] && u[j] == keys[j]);
            }
            lemma_insert_key_in_order(u, k);
            assert forall|i: int| 0 <= i < u.len() implies p(#[trigger] u[i]) by {
                assert(u[i] == keys[i]);
                assert(keys[i] != keys[keys.len() - 1] && key_le(keys[i], keys[keys.len() - 1]));
            }
            lemma_key_le_order(last, k, k);
            lemma_insert_key_every(u, k, p);
            let v = insert_key(u, k);
            assert forall|i: int, j: int|
            #![trigger r[i], r[j]]
            0 <= i < j < r.len() implies r[i] != r[j] && key_le(
                r[i],
                r[j],
            ) by {
                assert(r[i] == v[i]);
                if j < v.len() {
                    assert(r[j] == v[j]);
                } else {
                    assert(p(v[i]));
                }
            }
        }
    }
}

/// Adding a key puts it among the keys and takes none away.
pub proof fn lemma_insert_key_contains(keys: Seq<Option<Seq<char>>>, k: Option<Seq<char>>)
    ensures
        insert_key(keys, k).contains(k),
        forall|i: int| 0 <= i < keys.len() ==> insert_key(keys, k).contains(#[trigger] keys[i]),
    decreases keys.len(),
{
    let r = insert_key(keys, k);
    if keys.len() == 0 {
        assert(r[0] == k);
    } else if keys.last() == k {
        assert(r[keys.len() - 1] == k);
    } else if key_le(keys.last(), k) {
        assert(r[keys.len() as int] == k);
        assert forall|i: int| 0 <= i < keys.len() implies r.contains(#[trigger] keys[i]) by {
            assert(r[i] == keys[i]);
        }
    } else {
        let u = keys.drop_last();
        let v = insert_key(u, k);
        lemma_insert_key_contains(u, k);
        let at = choose|n: int| 0 <= n < v.len() && v[n] == k;
        assert(r[at] == k);
        assert forall|i: int| 0 <= i < keys.len() implies r.contains(#[trigger] keys[i]) by {
            if i < u.len() {
                assert(u[i] == keys[i]);
                assert(v.contains(u[i]));
                let n = choose|n: int| 0 <= n < v.len() && v[n] == keys[i];
                assert(r[n] == keys[i]);
            } else {
                assert(r[r.len() - 1] == keys[i]);
            }
        }
    }
}

/// The namespaces of a stream stand in the order of namespaces, the top level
/// first, and none stands twice; the namespace of every record is among them. So
/// every record belongs to exactly one group.
pub proof fn law_namespaces_in_order(s: Seq<Record>)
    ensures
        in_key_order(namespaces_of(s)),
        forall|i: int| 0 <= i < s.len() ==> namespaces_of(s).contains((#[trigger] s[i]).js_mod),
    decreases s.len(),
{
    if s.len() > 0 {
        let u = s.drop_last();
        law_namespaces_in_order(u);
        lemma_insert_key_in_order(namespaces_of(u), s.last().js_mod);
        lemma_insert_key_contains(namespaces_of(u), s.last().js_mod);
        assert forall|i: int| 0 <= i < s.len() implies namespaces_of(s).contains(
            (#[trigger] s[i]).js_mod,
        ) by {
            if i < u.len() {
                assert(u[i] == s[i]);
                let key = u[i].js_mod;
                assert(namespaces_of(u).contains(key));
                let n = choose|n: int| 0 <= n < namespaces_of(u).len() && namespaces_of(u)[n] == key;
                assert(namespaces_of(s).contains(namespaces_of(u)[n]));
            }
        }
    }
}

/// Whether two namespace keys are the same.
pub fn same_key(a: &Option<String>, b: &Option<String>) -> (r: bool)
    ensures
        r == (text_opt(*a) == text_opt(*b)),
{
    match (a, b) {
        (None, None) => true,
        (Some(x), Some(y)) => *x == *y,
        _ => false,
    }
}

/// Decides the order of two namespace keys.
pub fn key_at_most(a: &Option<String>, b: &Option<String>) -> (r: bool)
    ensures
        r == key_le(text_opt(*a), text_opt(*b)),
{
    match (a, b) {
        (None, _) => true,
        (Some(_), None) => false,
        (Some(x), Some(y)) => str_at_most(x.as_str(), y.as_str()),
    }
}

/// The namespaces that occur in `defs`, each once, in the order of namespaces.
pub fn collect_namespaces(defs: &Vec<TypeDefLine>) -> (keys: Vec<Option<String>>)
    ensures
        key_views(keys@) == namespaces_of(views(defs@)),
{
    let mut keys: Vec<Option<String>> = Vec::new();
    let mut i: usize = 0;
    while i < defs.len()
        invariant
            i <= defs.len(),
            key_views(keys@) == namespaces_of(views(defs@).subrange(0, i as int)),
        decreases defs.len() - i,
    {
        let k = copy_text_opt(&defs[i].js_mod);
        let mut j: usize = keys.len();
        while j > 0 && !key_at_most(&keys[j - 1], &k)
            invariant
                j <= keys.len(),
                forall|n: int|
                    j <= n < keys.len() ==> !key_le(#[trigger] key_views(keys@)[n], text_opt(k)),
            decreases j,
        {
            j = j - 1;
        }
        proof {
            let s = views(defs@).subrange(0, i + 1);
            assert(s.drop_last() =~= views(defs@).subrange(0, i as int));
            assert(s.last().js_mod == text_opt(k));
            lemma_insert_key_at(key_views(keys@), text_opt(k), j as int);
        }
        if j > 0 && same_key(&keys[j - 1], &k) {
        } else {
            proof {
                assert(key_views(keys@.insert(j as int, k)) =~= key_views(keys@).insert(
                    j as int,
                    text_opt(k),
                ));
            }
            keys.insert(j, k);
        }
        i = i + 1;
    }
    assert(views(defs@).subrange(0, i as int) =~= views(defs@));
    keys
}

/// Folds the member block `member` into every class of `table` that has its name.
fn fold_members(table: &mut Vec<TypeDefLine>, member: &TypeDefLine)
    ensures
        views(final(table)@) == add_members(views(old(table)@), member@),
{
    let ghost before = views(table@);
    let mut i: usize = 0;
    while i < table.len()
        invariant
            i <= table.len(),
            table.len() == before.len(),
            forall|n: int|
                0 <= n < i ==> #[trigger] views(table@)[n] == add_members(before, member@)[n],
            forall|n: int| i <= n < table.len() ==> #[trigger] views(table@)[n] == before[n],
        decreases table.len() - i,
    {
        if table[i].name == member.name {
            let ghost snapshot = views(table@);
            let mut class = table.remove(i);
            let ghost unfolded = class@;
            if !class.def.as_str().is_empty() {
                class.def.push('\n');
            }
            class.def.append(member.def.as_str());
            assert(class@.def =~= joined_def(unfolded.def, member@.def));
            assert(class@ == with_members(unfolded, member@.def));
            table.insert(i, class);
            assert(views(table@) =~= snapshot.update(
                i as int,
                with_members(snapshot[i as int], member@.def),
            ));
        }
        i = i + 1;
    }
    assert(views(table@) =~= add_members(before, member@));
}

/// The class table after the records of `defs`, taken in order.
pub fn collect_classes(defs: &Vec<TypeDefLine>) -> (table: Vec<TypeDefLine>)
    ensures
        views(table@) == class_table(views(defs@)),
{
    let mut table: Vec<TypeDefLine> = Vec::new();
    let mut i: usize = 0;
    while i < defs.len()
        invariant
            i <= defs.len(),
            views(table@) == class_table(views(defs@).subrange(0, i as int)),
        decreases defs.len() - i,
    {
        proof {
            let s = views(defs@).subrange(0, i + 1);
            assert(s.drop_last() =~= views(defs@).subrange(0, i as int));
            assert(s.last() == defs@[i as int]@);
        }
        if defs[i].kind == TypeDefKind::Struct {
            let class = defs[i].copy_of();
            let mut j: usize = table.len();
            while j > 0 && !str_at_most(table[j - 1].name.as_str(), class.name.as_str())
                invariant
                    j <= table.len(),
                    forall|n: int|
                        j <= n < table.len() ==> !text_le(
                            (#[trigger] views(table@)[n]).name,
                            class@.name,
                        ),
                decreases j,
            {
                j = j - 1;
            }
            proof {
                lemma_put_class_at(views(table@), class@, j as int);
            }
            if j > 0 && table[j - 1].name == class.name {
                let ghost snapshot = views(table@);
                table.remove(j - 1);
                table.insert(j - 1, class);
                assert(views(table@) =~= snapshot.update(j - 1, class@));
            } else {
                let ghost snapshot = views(table@);
                table.insert(j, class);
                assert(views(table@) =~= snapshot.insert(j as int, class@));
            }
        } else if defs[i].kind == TypeDefKind::Impl {
            fold_members(&mut table, &defs[i]);
        }
        i = i + 1;
    }
    assert(views(defs@).subrange(0, i as int) =~= views(defs@));
    table
}

/// Appends to `out` the records of `from` that live in the namespace `ns`; with
/// `plain_only`, only those that are rendered as they stand.
fn push_members(
    out: &mut Vec<TypeDefLine>,
    from: &Vec<TypeDefLine>,
    ns: &Option<String>,
    plain_only: bool,
)
    ensures
        views(final(out)@) == views(old(out)@) + if plain_only {
            plain_members_of(views(from@), text_opt(*ns))
        } else {
            members_of(views(from@), text_opt(*ns))
        },
{
    let ghost before = views(out@);
    let ghost key = text_opt(*ns);
    let mut i: usize = 0;
    assert(views(out@) =~= before + Seq::<Record>::empty());
    while i < from.len()
        invariant
            i <= from.len(),
            key == text_opt(*ns),
            views(out@) == before + if plain_only {
                plain_members_of(views(from@).subrange(0, i as int), key)
            } else {
                members_of(views(from@).subrange(0, i as int), key)
            },
        decreases from.len() - i,
    {
        proof {
            let s = views(from@).subrange(0, i + 1);
            assert(s.drop_last() =~= views(from@).subrange(0, i as int));
            assert(s.last() == from@[i as int]@);
        }
        let plain = from[i].kind != TypeDefKind::Struct && from[i].kind != TypeDefKind::Impl;
        if same_key(&from[i].js_mod, ns) && (plain || !plain_only) {
            let ghost snapshot = views(out@);
            let r = from[i].copy_of();
            out.push(r);
            assert(views(out@) =~= snapshot.push(r@));
            assert(before + plain_members_of(views(from@).subrange(0, i as int), key).push(r@)
                =~= (before + plain_members_of(views(from@).subrange(0, i as int), key)).push(r@));
            assert(before + members_of(views(from@).subrange(0, i as int), key).push(r@)
                =~= (before + members_of(views(from@).subrange(0, i as int), key)).push(r@));
        }
        i = i + 1;
    }
    assert(views(from@).subrange(0, i as int) =~= views(from@));
}

/// Groups the records by namespace and folds each class's member blocks into the
/// class. The groups come in the order of namespaces, one for every namespace that
/// occurs in `defs`; within a group the classes come first, in lexical order of
/// their names, then the plain records in the order they have in `defs`.
pub fn preprocess_type_def(defs: Vec<TypeDefLine>) -> (groups: Vec<NamespaceGroup>)
    ensures
        group_views(groups@) == grouped(views(defs@)),
{
    let keys = collect_namespaces(&defs);
    let table = collect_classes(&defs);
    let mut groups: Vec<NamespaceGroup> = Vec::new();
    let mut i: usize = 0;
    while i < keys.len()
        invariant
            i <= keys.len(),
            key_views(keys@) == namespaces_of(views(defs@)),
            views(table@) == class_table(views(defs@)),
            groups.len() == i,
            forall|n: int|
                0 <= n < i ==> #[trigger] group_views(groups@)[n] == group_of(
                    views(defs@),
                    key_views(keys@)[n],
                ),
        decreases keys.len() - i,
    {
        let namespace = copy_text_opt(&keys[i]);
        let mut members: Vec<TypeDefLine> = Vec::new();
        assert(views(members@) =~= Seq::<Record>::empty());
        push_members(&mut members, &table, &namespace, false);
        push_members(&mut members, &defs, &namespace, true);
        let group = NamespaceGroup { namespace, defs: members };
        proof {
            assert(group@.defs =~= group_of(views(defs@), key_views(keys@)[i as int]).defs);
            assert(group@ == group_of(views(defs@), key_views(keys@)[i as int]));
        }
        let ghost earlier = group_views(groups@);
        groups.push(group);
        assert(group_views(groups@) =~= earlier.push(group@));
        i = i + 1;
    }
    assert(group_views(groups@) =~= grouped(views(defs@)));
    groups
}

} // verus!
