//! The record model: one exported symbol as the assembler sees it, and the order
//! in which records are rendered.

use vstd::prelude::*;
use crate::text::{str_at_most, text_le};

verus! {

/// The kind of symbol that a record describes.
#[derive(Debug, PartialEq, Eq, Hash, Clone, Copy, Structural)]
pub enum TypeDefKind {
    Const,
    Enum,
    Interface,
    Fn,
    Struct,
    Impl,
    StringEnum,
}

/// One exported symbol.
#[derive(Debug, Clone)]
pub struct TypeDefLine {
    /// What the symbol is.
    pub kind: TypeDefKind,
    /// The name under which it is emitted.
    pub name: String,
    /// The name it had before renaming, if that is recorded.
    pub original_name: Option<String>,
    /// The declaration body: a member list, a signature, a variant list.
    pub def: String,
    /// Documentation to emit in front of the declaration.
    pub js_doc: Option<String>,
    /// The namespace the symbol lives in; `None` for the top level.
    pub js_mod: Option<String>,
}

/// The mathematical value of a [`TypeDefLine`].
pub struct Record {
    pub kind: TypeDefKind,
    pub name: Seq<char>,
    pub original_name: Option<Seq<char>>,
    pub def: Seq<char>,
    pub js_doc: Option<Seq<char>>,
    pub js_mod: Option<Seq<char>>,
}

/// The text held by an optional string.
pub open spec fn text_opt(o: Option<String>) -> Option<Seq<char>> {
    match o {
        Some(s) => Some(s@),
        None => None,
    }
}

impl View for TypeDefLine {
    type V = Record;

    open spec fn view(&self) -> Record {
        Record {
            kind: self.kind,
            name: self.name@,
            original_name: text_opt(self.original_name),
            def: self.def@,
            js_doc: text_opt(self.js_doc),
            js_mod: text_opt(self.js_mod),
        }
    }
}

/// The values of a sequence of records, in order.
pub open spec fn views(s: Seq<TypeDefLine>) -> Seq<Record> {
    Seq::new(s.len(), |i: int| s[i]@)
}

/// A copy of an optional string.
pub fn copy_text_opt(o: &Option<String>) -> (r: Option<String>)
    ensures
        text_opt(r) == text_opt(*o),
{
    match o {
        Some(s) => Some(s.clone()),
        None => None,
    }
}

impl TypeDefLine {
    /// A copy of this record.
    pub fn copy_of(&self) -> (r: TypeDefLine)
        ensures
            r@ == self@,
    {
        TypeDefLine {
            kind: self.kind,
            name: self.name.clone(),
            original_name: copy_text_opt(&self.original_name),
            def: self.def.clone(),
            js_doc: copy_text_opt(&self.js_doc),
            js_mod: copy_text_opt(&self.js_mod),
        }
    }
}

/// The render order: `a` comes at or before `b`. A `Struct` comes before every record
/// of another kind; two `Struct`s, and two records that are both of other kinds, go by
/// name in lexical order. Records of equal rank keep the order in which they arrived.
pub open spec fn record_le(a: Record, b: Record) -> bool {
    if a.kind == TypeDefKind::Struct {
        b.kind == TypeDefKind::Struct ==> text_le(a.name, b.name)
    } else {
        b.kind != TypeDefKind::Struct && text_le(a.name, b.name)
    }
}

/// Two records that the render order does not tell apart.
pub open spec fn same_rank(a: Record, b: Record) -> bool {
    record_le(a, b) && record_le(b, a)
}

/// Whether consecutive records of `s` follow the render order.
pub open spec fn in_render_order(s: Seq<Record>) -> bool {
    forall|i: int, j: int| 0 <= i < j < s.len() ==> record_le(s[i], s[j])
}

/// `t` with `x` put behind the last record that comes at or before it.
pub open spec fn insert_sorted(t: Seq<Record>, x: Record) -> Seq<Record>
    decreases t.len(),
{
    if t.len() > 0 && !record_le(t.last(), x) {
        insert_sorted(t.drop_last(), x).push(t.last())
    } else {
        t.push(x)
    }
}

/// The records of `s` in render order, records of equal rank in arrival order.
pub open spec fn sorted_records(s: Seq<Record>) -> Seq<Record>
    decreases s.len(),
{
    if s.len() == 0 {
        Seq::empty()
    } else {
        insert_sorted(sorted_records(s.drop_last()), s.last())
    }
}

/// Whether `p` holds of every record of `s`.
pub open spec fn every(s: Seq<Record>, p: spec_fn(Record) -> bool) -> bool {
    forall|i: int| 0 <= i < s.len() ==> p(#[trigger] s[i])
}

/// Any two texts are comparable.
pub proof fn lemma_text_le_total(a: Seq<char>, b: Seq<char>)
    ensures
        text_le(a, b) || text_le(b, a),
    decreases a.len(),
{
    if a.len() > 0 && b.len() > 0 && a[0] == b[0] {
        lemma_text_le_total(a.drop_first(), b.drop_first());
    }
}

/// Every text is at or before itself.
pub proof fn lemma_text_le_refl(a: Seq<char>)
    ensures
        text_le(a, a),
    decreases a.len(),
{
    if a.len() > 0 {
        lemma_text_le_refl(a.drop_first());
    }
}

/// The lexical order is transitive.
pub proof fn lemma_text_le_trans(a: Seq<char>, b: Seq<char>, c: Seq<char>)
    requires
        text_le(a, b),
        text_le(b, c),
    ensures
        text_le(a, c),
    decreases a.len(),
{
    if a.len() > 0 && b.len() > 0 && c.len() > 0 && a[0] == b[0] && b[0] == c[0] {
        lemma_text_le_trans(a.drop_first(), b.drop_first(), c.drop_first());
    }
}

/// Two texts that are each at or before the other are the same text.
pub proof fn lemma_text_le_antisym(a: Seq<char>, b: Seq<char>)
    requires
        text_le(a, b),
        text_le(b, a),
    ensures
        a == b,
    decreases a.len(),
{
    if a.len() > 0 && b.len() > 0 {
        lemma_text_le_antisym(a.drop_first(), b.drop_first());
        assert(a =~= seq![a[0]] + a.drop_first());
        assert(b =~= seq![b[0]] + b.drop_first());
    } else {
        assert(a =~= b);
    }
}

/// Any two records are comparable in the render order.
pub proof fn lemma_record_le_total(a: Record, b: Record)
    ensures
        record_le(a, b) || record_le(b, a),
{
    lemma_text_le_total(a.name, b.name);
}

/// The render order is transitive.
pub proof fn lemma_record_le_trans(a: Record, b: Record, c: Record)
    requires
        record_le(a, b),
        record_le(b, c),
    ensures
        record_le(a, c),
{
    if text_le(a.name, b.name) && text_le(b.name, c.name) {
        lemma_text_le_trans(a.name, b.name, c.name);
    }
}

/// Where `insert_sorted` puts the new record: at the one index `j` with every
/// record from `j` on strictly behind `x` and the record before `j` at or before it.
pub proof fn lemma_insert_sorted_at(t: Seq<Record>, x: Record, j: int)
    requires
        0 <= j <= t.len(),
        forall|k: int| j <= k < t.len() ==> !record_le(#[trigger] t[k], x),
        j > 0 ==> record_le(t[j - 1], x),
    ensures
        insert_sorted(t, x) == t.insert(j, x),
    decreases t.len() - j,
{
    if j == t.len() {
        assert(t.insert(j, x) =~= t.push(x));
    } else {
        let u = t.drop_last();
        assert(!record_le(t[t.len() - 1], x));
        assert forall|k: int| j <= k < u.len() implies !record_le(#[trigger] u[k], x) by {
            assert(u[k] == t[k]);
        }
        lemma_insert_sorted_at(u, x, j);
        assert(u.insert(j, x).push(t.last()) =~= t.insert(j, x));
    }
}

/// What holds of every record of `t` and of `x` holds of every record of
/// `insert_sorted(t, x)`, which has one record more than `t`.
pub proof fn lemma_insert_sorted_every(t: Seq<Record>, x: Record, p: spec_fn(Record) -> bool)
    requires
        every(t, p),
        p(x),
    ensures
        every(insert_sorted(t, x), p),
        insert_sorted(t, x).len() == t.len() + 1,
    decreases t.len(),
{
    if t.len() > 0 && !record_le(t.last(), x) {
        let u = t.drop_last();
        assert forall|i: int| 0 <= i < u.len() implies p(#[trigger] u[i]) by {
            assert(u[i] == t[i]);
        }
        lemma_insert_sorted_every(u, x, p);
        assert(p(t[t.len() - 1]));
    }
}

/// Sorting neither adds nor drops a record: what holds of every record of `s` holds
/// of every record of `sorted_records(s)`, and the two are of one length.
pub proof fn lemma_sorted_every(s: Seq<Record>, p: spec_fn(Record) -> bool)
    requires
        every(s, p),
    ensures
        every(sorted_records(s), p),
        sorted_records(s).len() == s.len(),
    decreases s.len(),
{
    if s.len() > 0 {
        let u = s.drop_last();
        assert forall|i: int| 0 <= i < u.len() implies p(#[trigger] u[i]) by {
            assert(u[i] == s[i]);
        }
        lemma_sorted_every(u, p);
        assert(p(s[s.len() - 1]));
        lemma_insert_sorted_every(sorted_records(u), s.last(), p);
    }
}

/// Putting a record into a sequence in render order leaves it in render order.
pub proof fn lemma_insert_sorted_in_order(t: Seq<Record>, x: Record)
    requires
        in_render_order(t),
    ensures
        in_render_order(insert_sorted(t, x)),
    decreases t.len(),
{
    let r = insert_sorted(t, x);
    if t.len() > 0 && !record_le(t.last(), x) {
        let u = t.drop_last();
        let last = t.last();
        let p = |e: Record| record_le(e, last);
        assert forall|i: int, j: int| 0 <= i < j < u.len() implies record_le(u[i], u[j]) by {
            assert(u[i] == t[i] && u[j] == t[j]);
        }
        lemma_insert_sorted_in_order(u, x);
        assert forall|i: int| 0 <= i < u.len() implies p(#[trigger] u[i]) by {
            assert(u[i] == t[i]);
            assert(record_le(t[i], t[t.len() - 1]));
        }
        lemma_record_le_total(last, x);
        lemma_insert_sorted_every(u, x, p);
        let v = insert_sorted(u, x);
        assert forall|i: int, j: int| 0 <= i < j < r.len() implies record_le(r[i], r[j]) by {
            if j < v.len() {
                assert(r[i] == v[i] && r[j] == v[j]);
            } else {
                assert(r[i] == v[i]);
                assert(p(v[i]));
            }
        }
    } else {
        assert forall|i: int, j: int| 0 <= i < j < r.len() implies record_le(r[i], r[j]) by {
            if j < t.len() {
                assert(r[i] == t[i] && r[j] == t[j]);
            } else {
                assert(r[i] == t[i]);
                if i < t.len() - 1 {
                    assert(record_le(t[i], t[t.len() - 1]));
                    lemma_record_le_trans(t[i], t.last(), x);
                }
            }
        }
    }
}

/// The sorted records stand in render order.
pub proof fn law_sorted_in_render_order(s: Seq<Record>)
    ensures
        in_render_order(sorted_records(s)),
    decreases s.len(),
{
    if s.len() > 0 {
        law_sorted_in_render_order(s.drop_last());
        lemma_insert_sorted_in_order(sorted_records(s.drop_last()), s.last());
    }
}

/// Putting a record into a sequence adds that record and nothing else.
pub proof fn lemma_insert_sorted_multiset(t: Seq<Record>, x: Record)
    ensures
        insert_sorted(t, x).to_multiset() == t.to_multiset().insert(x),
    decreases t.len(),
{
    broadcast use vstd::seq_lib::to_multiset_build;

    if t.len() > 0 && !record_le(t.last(), x) {
        let u = t.drop_last();
        lemma_insert_sorted_multiset(u, x);
        assert(u.push(t.last()) =~= t);
        assert(insert_sorted(t, x).to_multiset() =~= t.to_multiset().insert(x));
    }
}

/// Sorting rearranges: the sorted records are the records of `s`, each as often as
/// it occurs in `s`.
pub proof fn law_sorted_is_rearrangement(s: Seq<Record>)
    ensures
        sorted_records(s).to_multiset() == s.to_multiset(),
    decreases s.len(),
{
    broadcast use vstd::seq_lib::to_multiset_build;

    if s.len() > 0 {
        let u = s.drop_last();
        law_sorted_is_rearrangement(u);
        lemma_insert_sorted_multiset(sorted_records(u), s.last());
        assert(u.push(s.last()) =~= s);
    } else {
        assert(sorted_records(s) =~= s);
    }
}

/// The records of `s` that share the rank of `r`, in order.
pub open spec fn of_rank(s: Seq<Record>, r: Record) -> Seq<Record>
    decreases s.len(),
{
    if s.len() == 0 {
        Seq::empty()
    } else if same_rank(s.last(), r) {
        of_rank(s.drop_last(), r).push(s.last())
    } else {
        of_rank(s.drop_last(), r)
    }
}

/// Putting a record in leaves the records of every rank in the order they had, the
/// new record behind those of its own rank.
pub proof fn lemma_insert_sorted_of_rank(t: Seq<Record>, x: Record, r: Record)
    ensures
        of_rank(insert_sorted(t, x), r) == if same_rank(x, r) {
            of_rank(t, r).push(x)
        } else {
            of_rank(t, r)
        },
    decreases t.len(),
{
    if t.len() > 0 && !record_le(t.last(), x) {
        let u = t.drop_last();
        let last = t.last();
        let v = insert_sorted(u, x);
        lemma_insert_sorted_of_rank(u, x, r);
        assert(v.push(last).drop_last() =~= v);
        assert(v.push(last).last() == last);
        if same_rank(x, r) && same_rank(last, r) {
            lemma_record_le_trans(last, r, x);
        }
    } else {
        assert(t.push(x).drop_last() =~= t);
        assert(t.push(x).last() == x);
    }
}

/// Sorting keeps the arrival order among records of equal rank: for every rank, the
/// records of that rank stand in the sorted sequence in the order in which they
/// arrived.
pub proof fn law_sorted_keeps_arrival_order(s: Seq<Record>, r: Record)
    ensures
        of_rank(sorted_records(s), r) == of_rank(s, r),
    decreases s.len(),
{
    if s.len() > 0 {
        law_sorted_keeps_arrival_order(s.drop_last(), r);
        lemma_insert_sorted_of_rank(sorted_records(s.drop_last()), s.last(), r);
    }
}

/// Two records of different rank can be put in in either order.
pub proof fn lemma_insert_sorted_commutes(t: Seq<Record>, a: Record, b: Record)
    requires
        !same_rank(a, b),
    ensures
        insert_sorted(insert_sorted(t, a), b) == insert_sorted(insert_sorted(t, b), a),
    decreases t.len(),
{
    lemma_record_le_total(a, b);
    if record_le(a, b) {
        lemma_insert_sorted_commutes_ordered(t, a, b);
    } else {
        lemma_insert_sorted_commutes_ordered(t, b, a);
    }
}

/// Two records of which the first comes strictly before the second can be put in
/// in either order.
pub proof fn lemma_insert_sorted_commutes_ordered(t: Seq<Record>, a: Record, b: Record)
    requires
        record_le(a, b),
        !record_le(b, a),
    ensures
        insert_sorted(insert_sorted(t, a), b) == insert_sorted(insert_sorted(t, b), a),
    decreases t.len(),
{
    if t.len() == 0 {
        let ta = insert_sorted(t, a);
        let tb = insert_sorted(t, b);
        assert(ta =~= seq![a]);
        assert(tb =~= seq![b]);
        assert(ta.last() == a);
        assert(tb.last() == b);
        assert(tb.drop_last() =~= t);
        assert(insert_sorted(ta, b) =~= seq![a, b]);
        assert(insert_sorted(tb, a) =~= seq![a, b]);
    } else {
        let y = t.last();
        let u = t.drop_last();
        if !record_le(y, a) {
            let ua = insert_sorted(u, a);
            assert(insert_sorted(t, a) == ua.push(y));
            assert(ua.push(y).last() == y);
            assert(ua.push(y).drop_last() =~= ua);
            if !record_le(y, b) {
                let ub = insert_sorted(u, b);
                assert(insert_sorted(t, b) == ub.push(y));
                assert(ub.push(y).last() == y);
                assert(ub.push(y).drop_last() =~= ub);
                lemma_insert_sorted_commutes_ordered(u, a, b);
            } else {
                assert(insert_sorted(t, b) == t.push(b));
                assert(t.push(b).last() == b);
                assert(t.push(b).drop_last() =~= t);
            }
        } else {
            lemma_record_le_trans(y, a, b);
            assert(insert_sorted(t, a) == t.push(a));
            assert(t.push(a).last() == a);
            assert(insert_sorted(t, b) == t.push(b));
            assert(t.push(b).last() == b);
            assert(t.push(b).drop_last() =~= t);
        }
    }
}

/// `t` with the records of `z` put in one after the other.
pub open spec fn insert_all(t: Seq<Record>, z: Seq<Record>) -> Seq<Record>
    decreases z.len(),
{
    if z.len() == 0 {
        t
    } else {
        insert_sorted(insert_all(t, z.drop_last()), z.last())
    }
}

/// Sorting a stream in two parts: sort the first, then put in the second.
pub proof fn lemma_sorted_append(w: Seq<Record>, z: Seq<Record>)
    ensures
        sorted_records(w + z) == insert_all(sorted_records(w), z),
    decreases z.len(),
{
    if z.len() == 0 {
        assert(w + z =~= w);
    } else {
        lemma_sorted_append(w, z.drop_last());
        assert((w + z).drop_last() =~= w + z.drop_last());
        assert((w + z).last() == z.last());
    }
}

/// A record that shares its rank with none of the records `y` that arrive behind it
/// may as well arrive behind them.
pub proof fn lemma_sorted_move_back(x: Seq<Record>, c: Record, y: Seq<Record>)
    requires
        forall|i: int| 0 <= i < y.len() ==> !same_rank(c, #[trigger] y[i]),
    ensures
        sorted_records(x + seq![c] + y) == sorted_records(x + y + seq![c]),
    decreases y.len(),
{
    if y.len() == 0 {
        assert(x + seq![c] + y =~= x + y + seq![c]);
    } else {
        let u = y.drop_last();
        let e = y.last();
        assert forall|i: int| 0 <= i < u.len() implies !same_rank(c, #[trigger] u[i]) by {
            assert(u[i] == y[i]);
        }
        lemma_sorted_move_back(x, c, u);
        let moved = x + u + seq![c];
        let front = x + seq![c] + y;
        let back = x + y + seq![c];
        assert(front.drop_last() =~= x + seq![c] + u);
        assert(front.last() == e);
        assert(moved.drop_last() =~= x + u);
        assert(moved.last() == c);
        assert(back.drop_last() =~= x + y);
        assert(back.last() == c);
        assert((x + y).drop_last() =~= x + u);
        assert((x + y).last() == e);
        assert(!same_rank(c, y[y.len() - 1]));
        let base = sorted_records(x + u);
        lemma_insert_sorted_commutes(base, c, e);
        assert(sorted_records(front) == insert_sorted(sorted_records(x + seq![c] + u), e));
        assert(sorted_records(moved) == insert_sorted(base, c));
        assert(sorted_records(x + y) == insert_sorted(base, e));
        assert(sorted_records(back) == insert_sorted(sorted_records(x + y), c));
    }
}

/// Decides the render order of two records.
pub fn comes_at_or_before(a: &TypeDefLine, b: &TypeDefLine) -> (r: bool)
    ensures
        r == record_le(a@, b@),
{
    let a_struct = a.kind == TypeDefKind::Struct;
    let b_struct = b.kind == TypeDefKind::Struct;
    if a_struct && !b_struct {
        true
    } else if !a_struct && b_struct {
        false
    } else {
        str_at_most(a.name.as_str(), b.name.as_str())
    }
}

/// Puts the records in render order; records of equal rank keep their arrival order.
pub fn sort_records(records: Vec<TypeDefLine>) -> (out: Vec<TypeDefLine>)
    ensures
        views(out@) == sorted_records(views(records@)),
{
    let mut out: Vec<TypeDefLine> = Vec::new();
    let mut i: usize = 0;
    while i < records.len()
        invariant
            i <= records.len(),
            views(out@) == sorted_records(views(records@).subrange(0, i as int)),
        decreases records.len() - i,
    {
        let x = records[i].copy_of();
        let mut j: usize = out.len();
        while j > 0 && !comes_at_or_before(&out[j - 1], &x)
            invariant
                j <= out.len(),
                forall|k: int| j <= k < out.len() ==> !record_le(#[trigger] views(out@)[k], x@),
            decreases j,
        {
            j = j - 1;
        }
        proof {
            let t = views(out@);
            let s = views(records@).subrange(0, i + 1);
            lemma_insert_sorted_at(t, x@, j as int);
            assert(s.drop_last() =~= views(records@).subrange(0, i as int));
            assert(s.last() == x@);
            assert(views(out@.insert(j as int, x)) =~= t.insert(j as int, x@));
        }
        out.insert(j, x);
        i = i + 1;
    }
    assert(views(records@).subrange(0, i as int) =~= views(records@));
    out
}

} // verus!
