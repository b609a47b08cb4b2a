//! The schema tree: leaf items and structural elements, their mathematical
//! model, and the merge operation that unifies repeated siblings.

use vstd::prelude::*;
use crate::kinds::{ValueTypeOption, make_optional};

verus! {

broadcast use vstd::std_specs::vec::group_vec_axioms, vstd::seq::axiom_seq_index_decreases, vstd::seq::axiom_seq_subrange_decreases;

/// One attribute: its wire name and the optionality-tagged kind inferred for
/// its text.
pub type Attr = (String, ValueTypeOption);

/// The model of an attribute list: name and tagged kind, in encounter order.
pub type AttrsModel = Seq<(Seq<char>, ValueTypeOption)>;

/// The model of a leaf item.
#[verifier::ext_equal]
pub struct ItemModel {
    pub name: Seq<char>,
    pub value_type: ValueTypeOption,
    pub attributes: AttrsModel,
}

/// The model of a structural element.
#[verifier::ext_equal]
pub struct ElemModel {
    pub name: Seq<char>,
    pub attributes: AttrsModel,
    pub items: Seq<ItemModel>,
    pub value_type: ValueTypeOption,
    pub elements: Seq<ElemModel>,
}

/// An element with no nested structural children: a name, the kind inferred
/// for its text, and its attribute schema.
#[derive(Debug)]
pub struct Item {
    pub name: String,
    pub value_type: ValueTypeOption,
    pub attributes: Vec<Attr>,
}

/// An element with at least one nested child element, carrying its own
/// attribute schema, its leaf items, its own text kind, and its nested
/// structural children.
#[derive(Debug)]
pub struct XmlElement {
    pub name: String,
    pub attributes: Vec<Attr>,
    pub items: Vec<Item>,
    pub value_type: ValueTypeOption,
    pub elements: Vec<XmlElement>,
}

/// The model of an attribute list, in encounter order.
pub open spec fn attrs_model(a: Seq<Attr>) -> AttrsModel {
    a.map_values(|p: Attr| (p.0@, p.1))
}

impl View for Item {
    type V = ItemModel;

    open spec fn view(&self) -> ItemModel {
        ItemModel {
            name: self.name@,
            value_type: self.value_type,
            attributes: attrs_model(self.attributes@),
        }
    }
}

/// The model of one structural element.
pub open spec fn elem_model(e: XmlElement) -> ElemModel
    decreases e, 0int,
{
    ElemModel {
        name: e.name@,
        attributes: attrs_model(e.attributes@),
        items: items_model(e.items@),
        value_type: e.value_type,
        elements: elems_model(e.elements@),
    }
}

/// The models of a list of structural elements, in order.
pub open spec fn elems_model(s: Seq<XmlElement>) -> Seq<ElemModel>
    decreases s, s.len(),
{
    if s.len() == 0 {
        Seq::empty()
    } else {
        elems_model(s.subrange(0, s.len() - 1)).push(elem_model(s[s.len() - 1]))
    }
}

impl View for XmlElement {
    type V = ElemModel;

    open spec fn view(&self) -> ElemModel {
        elem_model(*self)
    }
}

/// The models of a list of leaf items, in order.
pub open spec fn items_model(s: Seq<Item>) -> Seq<ItemModel> {
    s.map_values(|i: Item| i@)
}

/// Whether some entry of `a` carries the key `k`.
pub open spec fn has_key(a: AttrsModel, k: Seq<char>) -> bool {
    exists|i: int| 0 <= i < a.len() && a[i].0 == k
}

/// The kind of the first entry of `a` that carries the key `k`.
pub open spec fn lookup(a: AttrsModel, k: Seq<char>) -> ValueTypeOption
    decreases a.len(),
{
    if a.len() == 0 {
        arbitrary()
    } else if a[0].0 == k {
        a[0].1
    } else {
        lookup(a.subrange(1, a.len() as int), k)
    }
}

/// Whether the keys of `a` are pairwise distinct.
pub open spec fn uniq_keys(a: AttrsModel) -> bool {
    forall|i: int, j: int| 0 <= i < j < a.len() ==> a[i].0 != a[j].0
}

/// The tagged kind of a key both sides carry: the later side's kind wins,
/// but the key stays optional whenever either side already had it optional —
/// once a key has been promoted, no later sibling wins it back to required.
pub open spec fn combine_shared(av: ValueTypeOption, bv: ValueTypeOption) -> ValueTypeOption {
    if av is Required {
        bv
    } else {
        make_optional(bv)
    }
}

/// The entries of `a`, each combined with `b`'s entry where `b` also carries
/// the key and promoted to optional where it does not.
pub open spec fn merged_shared(a: AttrsModel, b: AttrsModel) -> AttrsModel {
    a.map_values(
        |p: (Seq<char>, ValueTypeOption)|
            if has_key(b, p.0) {
                (p.0, combine_shared(p.1, lookup(b, p.0)))
            } else {
                (p.0, make_optional(p.1))
            },
    )
}

/// The entries of `b` whose key `a` lacks, promoted to optional, in order.
pub open spec fn promoted_new(a: AttrsModel, b: AttrsModel) -> AttrsModel
    decreases b.len(),
{
    if b.len() == 0 {
        Seq::empty()
    } else {
        let front = promoted_new(a, b.subrange(0, b.len() - 1));
        let last = b[b.len() - 1];
        if has_key(a, last.0) {
            front
        } else {
            front.push((last.0, make_optional(last.1)))
        }
    }
}

/// The union of the two attribute schemas: `a`'s entries first, in `a`'s
/// order, then the keys only `b` carries, in `b`'s order. A key present on
/// both sides takes `b`'s kind and stays optional if either side had it
/// optional; a key present on exactly one side is promoted to optional.
pub open spec fn merge_attrs_model(a: AttrsModel, b: AttrsModel) -> AttrsModel {
    merged_shared(a, b) + promoted_new(a, b)
}

proof fn lemma_lookup_at(a: AttrsModel, k: Seq<char>, i: int)
    requires
        0 <= i < a.len(),
        a[i].0 == k,
        forall|j: int| 0 <= j < i ==> a[j].0 != k,
    ensures
        has_key(a, k),
        lookup(a, k) == a[i].1,
    decreases i,
{
    if i > 0 {
        let tail = a.subrange(1, a.len() as int);
        lemma_lookup_at(tail, k, i - 1);
    }
}

/// Linear search for the key `k`; returns the kind of its first entry.
fn find_attr(v: &Vec<Attr>, k: &String) -> (r: Option<ValueTypeOption>)
    ensures
        match r {
            Some(t) => has_key(attrs_model(v@), k@) && t == lookup(attrs_model(v@), k@),
            None => !has_key(attrs_model(v@), k@),
        },
{
    let mut i: usize = 0;
    while i < v.len()
        invariant
            i <= v@.len(),
            forall|j: int| 0 <= j < i ==> v@[j].0@ != k@,
        decreases v@.len() - i,
    {
        if v[i].0 == *k {
            proof {
                lemma_lookup_at(attrs_model(v@), k@, i as int);
            }
            return Some(v[i].1);
        }
        i += 1;
    }
    None
}

/// Copies an attribute list.
fn clone_attrs(v: &Vec<Attr>) -> (r: Vec<Attr>)
    ensures
        attrs_model(r@) == attrs_model(v@),
{
    let mut out: Vec<Attr> = Vec::new();
    let mut i: usize = 0;
    while i < v.len()
        invariant
            i <= v@.len(),
            out@.len() == i,
            attrs_model(out@) =~= attrs_model(v@).subrange(0, i as int),
        decreases v@.len() - i,
    {
        let ghost pre = out@;
        let name = v[i].0.clone();
        let t = v[i].1;
        out.push((name, t));
        proof {
            assert(attrs_model(out@) =~= attrs_model(pre).push((v@[i as int].0@, v@[i as int].1)));
            assert(attrs_model(out@) =~= attrs_model(v@).subrange(0, i + 1));
        }
        i += 1;
    }
    proof {
        assert(attrs_model(v@).subrange(0, v@.len() as int) =~= attrs_model(v@));
    }
    out
}

/// Unifies two attribute schemas: a key on both sides takes the other side's
/// kind but stays optional if either side had it optional, a key on exactly
/// one side is promoted to optional, and the result keeps `original`'s keys
/// in their order followed by `other`'s new keys in theirs.
pub fn merge_attributes(original: &Vec<Attr>, other: &Vec<Attr>) -> (r: Vec<Attr>)
    ensures
        attrs_model(r@) == merge_attrs_model(attrs_model(original@), attrs_model(other@)),
{
    let ghost am = attrs_model(original@);
    let ghost bm = attrs_model(other@);
    let mut out: Vec<Attr> = Vec::new();
    let mut i: usize = 0;
    while i < original.len()
        invariant
            i <= original@.len(),
            out@.len() == i,
            am == attrs_model(original@),
            bm == attrs_model(other@),
            attrs_model(out@) =~= merged_shared(am.subrange(0, i as int), bm),
        decreases original@.len() - i,
    {
        let ghost pre = out@;
        let name = original[i].0.clone();
        match find_attr(other, &name) {
            Some(t) => {
                let mut t = t;
                match original[i].1 {
                    ValueTypeOption::Optional(_) => {
                        t.optional();
                    },
                    ValueTypeOption::Required(_) => {},
                }
                out.push((name, t));
            },
            None => {
                let mut t = original[i].1;
                t.optional();
                out.push((name, t));
            },
        }
        proof {
            let entry = if has_key(bm, am[i as int].0) {
                (am[i as int].0, combine_shared(am[i as int].1, lookup(bm, am[i as int].0)))
            } else {
                (am[i as int].0, make_optional(am[i as int].1))
            };
            assert(attrs_model(out@) =~= attrs_model(pre).push(entry));
            assert(attrs_model(out@) =~= merged_shared(am.subrange(0, i + 1), bm));
        }
        i += 1;
    }
    proof {
        assert(am.subrange(0, am.len() as int) =~= am);
        assert(attrs_model(out@) =~= merged_shared(am, bm));
    }
    let mut j: usize = 0;
    while j < other.len()
        invariant
            j <= other@.len(),
            am == attrs_model(original@),
            bm == attrs_model(other@),
            attrs_model(out@) =~= merged_shared(am, bm) + promoted_new(am, bm.subrange(0, j as int)),
        decreases other@.len() - j,
    {
        let ghost pre = out@;
        let name = other[j].0.clone();
        match find_attr(original, &name) {
            Some(_) => {
            },
            None => {
                let mut t = other[j].1;
                t.optional();
                out.push((name, t));
            },
        }
        proof {
            let next = bm.subrange(0, j + 1);
            assert(next.subrange(0, next.len() - 1) =~= bm.subrange(0, j as int));
            assert(next[next.len() - 1] == bm[j as int]);
            if has_key(am, bm[j as int].0) {
                assert(out@ == pre);
                assert(promoted_new(am, next) == promoted_new(am, bm.subrange(0, j as int)));
            } else {
                assert(attrs_model(out@) =~= attrs_model(pre).push(
                    (bm[j as int].0, make_optional(bm[j as int].1)),
                ));
                assert(promoted_new(am, next) == promoted_new(am, bm.subrange(0, j as int)).push(
                    (bm[j as int].0, make_optional(bm[j as int].1)),
                ));
            }
            assert(attrs_model(out@) =~= merged_shared(am, bm) + promoted_new(am, next));
        }
        j += 1;
    }
    proof {
        assert(bm.subrange(0, bm.len() as int) =~= bm);
    }
    out
}

/// The merge of two same-named leaf items: the name and text kind stay the
/// first item's, the attribute schemas are unified.
pub open spec fn spec_merge_item(a: ItemModel, b: ItemModel) -> ItemModel {
    ItemModel {
        name: a.name,
        value_type: a.value_type,
        attributes: merge_attrs_model(a.attributes, b.attributes),
    }
}

impl Item {
    /// Copies a leaf item.
    pub fn duplicate(&self) -> (r: Item)
        ensures
            r@ == self@,
    {
        Item {
            name: self.name.clone(),
            value_type: self.value_type,
            attributes: clone_attrs(&self.attributes),
        }
    }

    /// Unifies this leaf item with a same-named sibling: attribute schemas
    /// are merged, keys missing on either side become optional.
    pub fn merge(&self, other: &Item) -> (r: Item)
        ensures
            r@ == spec_merge_item(self@, other@),
    {
        Item {
            name: self.name.clone(),
            value_type: self.value_type,
            attributes: merge_attributes(&self.attributes, &other.attributes),
        }
    }
}

/// Whether the names of the items are pairwise distinct.
pub open spec fn item_names_distinct(s: Seq<ItemModel>) -> bool {
    forall|i: int, j: int| 0 <= i < j < s.len() ==> s[i].name != s[j].name
}

/// One grouping step: fold `it` into the already-collected item of the same
/// name, or append it as a new group.
pub open spec fn group_step(acc: Seq<ItemModel>, it: ItemModel) -> Seq<ItemModel> {
    if exists|i: int| 0 <= i < acc.len() && acc[i].name == it.name {
        let i = choose|i: int| 0 <= i < acc.len() && acc[i].name == it.name;
        acc.update(i, spec_merge_item(acc[i], it))
    } else {
        acc.push(it)
    }
}

pub open spec fn group_fold(acc: Seq<ItemModel>, s: Seq<ItemModel>) -> Seq<ItemModel>
    decreases s.len(),
{
    if s.len() == 0 {
        acc
    } else {
        group_fold(group_step(acc, s[0]), s.subrange(1, s.len() as int))
    }
}

/// The items grouped by exact name equality: groups stand in order of first
/// occurrence, and the members of a group are folded left-to-right through
/// the pairwise item merge.
pub open spec fn group_items(s: Seq<ItemModel>) -> Seq<ItemModel> {
    group_fold(Seq::empty(), s)
}

proof fn lemma_group_fold_snoc(acc: Seq<ItemModel>, s: Seq<ItemModel>, x: ItemModel)
    ensures
        group_fold(acc, s.push(x)) == group_step(group_fold(acc, s), x),
    decreases s.len(),
{
    let sp = s.push(x);
    if s.len() == 0 {
        assert(sp[0] == x);
        assert(sp.subrange(1, sp.len() as int) =~= Seq::<ItemModel>::empty());
        assert(group_fold(acc, sp) == group_fold(group_step(acc, x), Seq::<ItemModel>::empty()));
    } else {
        assert(sp[0] == s[0]);
        assert(sp.subrange(1, sp.len() as int) =~= s.subrange(1, s.len() as int).push(x));
        lemma_group_fold_snoc(group_step(acc, s[0]), s.subrange(1, s.len() as int), x);
    }
}

/// Linear search for a leaf item with the given name; returns the index of
/// its first occurrence.
fn find_item(v: &Vec<Item>, name: &String) -> (r: Option<usize>)
    ensures
        match r {
            Some(k) => k < v@.len() && items_model(v@)[k as int].name == name@,
            None => forall|j: int| 0 <= j < v@.len() ==> items_model(v@)[j].name != name@,
        },
{
    let mut i: usize = 0;
    while i < v.len()
        invariant
            i <= v@.len(),
            forall|j: int| 0 <= j < i ==> items_model(v@)[j].name != name@,
        decreases v@.len() - i,
    {
        if v[i].name == *name {
            return Some(i);
        }
        i += 1;
    }
    None
}

/// Groups the leaf items by exact name equality and folds each group through
/// the pairwise merge, left to right; the result carries one item per
/// distinct name, in order of first occurrence.
pub fn group_merge_items(items: &Vec<Item>) -> (r: Vec<Item>)
    ensures
        items_model(r@) == group_items(items_model(items@)),
        item_names_distinct(items_model(r@)),
{
    let ghost sm = items_model(items@);
    let mut out: Vec<Item> = Vec::new();
    let mut i: usize = 0;
    while i < items.len()
        invariant
            i <= items@.len(),
            sm == items_model(items@),
            items_model(out@) == group_fold(Seq::empty(), sm.subrange(0, i as int)),
            item_names_distinct(items_model(out@)),
        decreases items@.len() - i,
    {
        let ghost pre = items_model(out@);
        match find_item(&out, &items[i].name) {
            Some(k) => {
                let merged = out[k].merge(&items[i]);
                out[k] = merged;
                proof {
                    let ch = choose|t: int| 0 <= t < pre.len() && pre[t].name == sm[i as int].name;
                    assert(pre[k as int].name == sm[i as int].name);
                    assert(0 <= ch < pre.len() && pre[ch].name == sm[i as int].name);
                    assert(items_model(out@) =~= pre.update(
                        k as int,
                        spec_merge_item(pre[k as int], sm[i as int]),
                    ));
                    assert(items_model(out@) == group_step(pre, sm[i as int]));
                }
            },
            None => {
                out.push(items[i].duplicate());
                proof {
                    assert(items_model(out@) =~= pre.push(sm[i as int]));
                    assert(items_model(out@) == group_step(pre, sm[i as int]));
                }
            },
        }
        proof {
            lemma_group_fold_snoc(Seq::empty(), sm.subrange(0, i as int), sm[i as int]);
            assert(sm.subrange(0, i as int).push(sm[i as int]) =~= sm.subrange(0, i + 1));
        }
        i += 1;
    }
    proof {
        assert(sm.subrange(0, sm.len() as int) =~= sm);
    }
    out
}

pub proof fn lemma_elems_model_push(s: Seq<XmlElement>, e: XmlElement)
    ensures
        elems_model(s.push(e)) == elems_model(s).push(elem_model(e)),
{
    let sp = s.push(e);
    assert(sp.subrange(0, sp.len() - 1) =~= s);
    assert(sp[sp.len() - 1] == e);
}

/// The model of an element list is as long as the list.
pub proof fn lemma_elems_model_len(s: Seq<XmlElement>)
    ensures
        elems_model(s).len() == s.len(),
    decreases s.len(),
{
    if s.len() > 0 {
        lemma_elems_model_len(s.subrange(0, s.len() - 1));
    }
}

/// The model of an element list, entry by entry.
pub proof fn lemma_elems_model_index(s: Seq<XmlElement>, i: int)
    requires
        0 <= i < s.len(),
    ensures
        elems_model(s).len() == s.len(),
        elems_model(s)[i] == elem_model(s[i]),
    decreases s.len(),
{
    lemma_elems_model_len(s);
    if i < s.len() - 1 {
        lemma_elems_model_index(s.subrange(0, s.len() - 1), i);
    } else {
        lemma_elems_model_len(s.subrange(0, s.len() - 1));
    }
}

/// The model of a slice of an element list is the slice of its model.
pub proof fn lemma_elems_model_subrange(s: Seq<XmlElement>, a: int, b: int)
    requires
        0 <= a <= b <= s.len(),
    ensures
        elems_model(s.subrange(a, b)) == elems_model(s).subrange(a, b),
{
    lemma_elems_model_len(s);
    lemma_elems_model_len(s.subrange(a, b));
    assert forall|j: int| 0 <= j < b - a implies elems_model(s.subrange(a, b))[j] == elems_model(
        s,
    ).subrange(a, b)[j] by {
        lemma_elems_model_index(s.subrange(a, b), j);
        lemma_elems_model_index(s, a + j);
    }
    assert(elems_model(s.subrange(a, b)) =~= elems_model(s).subrange(a, b));
}

/// Copies a list of leaf items.
fn dup_items(v: &Vec<Item>) -> (r: Vec<Item>)
    ensures
        items_model(r@) == items_model(v@),
{
    let mut out: Vec<Item> = Vec::new();
    let mut i: usize = 0;
    while i < v.len()
        invariant
            i <= v@.len(),
            items_model(out@) =~= items_model(v@).subrange(0, i as int),
        decreases v@.len() - i,
    {
        let ghost pre = items_model(out@);
        out.push(v[i].duplicate());
        proof {
            assert(items_model(out@) =~= pre.push(items_model(v@)[i as int]));
            assert(items_model(out@) =~= items_model(v@).subrange(0, i + 1));
        }
        i += 1;
    }
    proof {
        assert(items_model(v@).subrange(0, v@.len() as int) =~= items_model(v@));
    }
    out
}

/// Appends a copy of every item of `src` to `dst`.
fn extend_items(dst: &mut Vec<Item>, src: &Vec<Item>)
    ensures
        items_model(final(dst)@) == items_model(old(dst)@) + items_model(src@),
{
    let ghost base = items_model(dst@);
    let mut i: usize = 0;
    while i < src.len()
        invariant
            i <= src@.len(),
            base == items_model(old(dst)@),
            items_model(dst@) =~= base + items_model(src@).subrange(0, i as int),
        decreases src@.len() - i,
    {
        let ghost pre = items_model(dst@);
        dst.push(src[i].duplicate());
        proof {
            assert(items_model(dst@) =~= pre.push(items_model(src@)[i as int]));
            assert(items_model(dst@) =~= base + items_model(src@).subrange(0, i + 1));
        }
        i += 1;
    }
    proof {
        assert(items_model(src@).subrange(0, src@.len() as int) =~= items_model(src@));
        assert(items_model(dst@) =~= base + items_model(src@));
    }
}

/// Appends a deep copy of every element of `src` to `dst`.
fn extend_elems(dst: &mut Vec<XmlElement>, src: &Vec<XmlElement>)
    ensures
        elems_model(final(dst)@) == elems_model(old(dst)@) + elems_model(src@),
{
    let ghost base = elems_model(dst@);
    let mut i: usize = 0;
    while i < src.len()
        invariant
            i <= src@.len(),
            base == elems_model(old(dst)@),
            elems_model(dst@) == base + elems_model(src@.subrange(0, i as int)),
        decreases src@.len() - i,
    {
        let ghost snap = dst@;
        let child = src[i].duplicate();
        proof {
            lemma_elems_model_push(snap, child);
            lemma_elems_model_push(src@.subrange(0, i as int), src@[i as int]);
            assert(src@.subrange(0, i as int).push(src@[i as int]) =~= src@.subrange(0, i + 1));
        }
        dst.push(child);
        proof {
            assert(elems_model(dst@) =~= base + elems_model(src@.subrange(0, i + 1)));
        }
        i += 1;
    }
    proof {
        assert(src@.subrange(0, src@.len() as int) =~= src@);
    }
}

/// The merge of two same-named structural siblings: the name and text kind
/// stay the first side's, the attribute schemas are unified, the leaf-item
/// lists are concatenated and regrouped by name, and the nested element
/// lists are concatenated without deeper merging.
pub open spec fn spec_merge_elem(a: ElemModel, b: ElemModel) -> ElemModel {
    ElemModel {
        name: a.name,
        attributes: merge_attrs_model(a.attributes, b.attributes),
        items: group_items(a.items + b.items),
        value_type: a.value_type,
        elements: a.elements + b.elements,
    }
}

impl XmlElement {
    /// Deep copy of the whole element tree.
    pub fn duplicate(&self) -> (r: XmlElement)
        ensures
            r@ == self@,
        decreases *self,
    {
        let mut elements: Vec<XmlElement> = Vec::new();
        let mut i: usize = 0;
        while i < self.elements.len()
            invariant
                i <= self.elements@.len(),
                elems_model(elements@) == elems_model(self.elements@.subrange(0, i as int)),
            decreases self.elements@.len() - i,
    {
            let ghost snap = elements@;
            let child = self.elements[i].duplicate();
            proof {
                lemma_elems_model_push(snap, child);
                lemma_elems_model_push(
                    self.elements@.subrange(0, i as int),
                    self.elements@[i as int],
                );
                assert(self.elements@.subrange(0, i as int).push(self.elements@[i as int])
                    =~= self.elements@.subrange(0, i + 1));
            }
            elements.push(child);
            i += 1;
        }
        proof {
            assert(self.elements@.subrange(0, self.elements@.len() as int) =~= self.elements@);
        }
        let r = XmlElement {
            name: self.name.clone(),
            attributes: clone_attrs(&self.attributes),
            items: dup_items(&self.items),
            value_type: self.value_type,
            elements,
        };
        proof {
            assert(r@ =~= self@);
        }
        r
    }

    /// Unifies this structural element with a same-slot sibling.
    pub fn merge(&self, other: &XmlElement) -> (r: XmlElement)
        ensures
            r@ == spec_merge_elem(self@, other@),
    {
        let mut all_items: Vec<Item> = Vec::new();
        extend_items(&mut all_items, &self.items);
        extend_items(&mut all_items, &other.items);
        let items = group_merge_items(&all_items);
        let mut elements: Vec<XmlElement> = Vec::new();
        extend_elems(&mut elements, &self.elements);
        extend_elems(&mut elements, &other.elements);
        let r = XmlElement {
            name: self.name.clone(),
            attributes: merge_attributes(&self.attributes, &other.attributes),
            items,
            value_type: self.value_type,
            elements,
        };
        proof {
            assert(items_model(all_items@) =~= self@.items + other@.items);
            assert(elems_model(elements@) =~= self@.elements + other@.elements);
            assert(r@ =~= spec_merge_elem(self@, other@));
        }
        r
    }
}

/// Splits key membership and first-match lookup over a concatenation.
proof fn lemma_lookup_concat(s1: AttrsModel, s2: AttrsModel, k: Seq<char>)
    ensures
        has_key(s1 + s2, k) == (has_key(s1, k) || has_key(s2, k)),
        has_key(s1, k) ==> lookup(s1 + s2, k) == lookup(s1, k),
        !has_key(s1, k) ==> lookup(s1 + s2, k) == lookup(s2, k),
    decreases s1.len(),
{
    let c = s1 + s2;
    if s1.len() == 0 {
        assert(c =~= s2);
    } else {
        let t1 = s1.subrange(1, s1.len() as int);
        assert(c[0] == s1[0]);
        assert(c.subrange(1, c.len() as int) =~= t1 + s2);
        lemma_lookup_concat(t1, s2, k);
        if has_key(s1, k) {
            let w = choose|i: int| 0 <= i < s1.len() && s1[i].0 == k;
            if w > 0 {
                assert(t1[w - 1].0 == k);
                assert(has_key(t1, k));
            }
            let wc = w;
            assert(c[wc].0 == k);
            assert(has_key(c, k));
        }
        if has_key(t1, k) {
            let w = choose|i: int| 0 <= i < t1.len() && t1[i].0 == k;
            assert(s1[w + 1].0 == k);
            assert(has_key(s1, k));
        }
        if has_key(c, k) && !has_key(s1, k) {
            let w = choose|i: int| 0 <= i < c.len() && c[i].0 == k;
            assert(w >= s1.len());
            assert(s2[w - s1.len()].0 == k);
            assert(has_key(s2, k));
        }
        if has_key(s2, k) {
            let w = choose|i: int| 0 <= i < s2.len() && s2[i].0 == k;
            assert(c[s1.len() + w].0 == k);
            assert(has_key(c, k));
        }
    }
}

/// Key membership and lookup after appending one entry.
proof fn lemma_lookup_push(u: AttrsModel, p: (Seq<char>, ValueTypeOption), k: Seq<char>)
    ensures
        has_key(u.push(p), k) == (has_key(u, k) || p.0 == k),
        has_key(u, k) ==> lookup(u.push(p), k) == lookup(u, k),
        !has_key(u, k) && p.0 == k ==> lookup(u.push(p), k) == p.1,
{
    let single = seq![p];
    assert(u.push(p) =~= u + single);
    lemma_lookup_concat(u, single, k);
    assert(has_key(single, k) == (p.0 == k)) by {
        if p.0 == k {
            assert(single[0].0 == k);
        }
    }
    assert(p.0 == k ==> lookup(single, k) == p.1);
}

/// The keys of the promoted tail are exactly the keys `b` carries and `a`
/// lacks, and the promoted kind comes from `b`'s first entry of the key.
proof fn lemma_promoted_new_lookup(a: AttrsModel, b: AttrsModel, k: Seq<char>)
    requires
        uniq_keys(b),
    ensures
        has_key(promoted_new(a, b), k) == (has_key(b, k) && !has_key(a, k)),
        has_key(b, k) && !has_key(a, k) ==> lookup(promoted_new(a, b), k) == make_optional(
            lookup(b, k),
        ),
    decreases b.len(),
{
    if b.len() == 0 {
    } else {
        let b0 = b.subrange(0, b.len() - 1);
        let last = b[b.len() - 1];
        assert(uniq_keys(b0)) by {
            assert forall|i: int, j: int| 0 <= i < j < b0.len() implies b0[i].0 != b0[j].0 by {
                assert(b[i].0 != b[j].0);
            }
        }
        lemma_promoted_new_lookup(a, b0, k);
        // membership of k in b splits over b0 and the last entry
        assert(has_key(b, k) == (has_key(b0, k) || last.0 == k)) by {
            if has_key(b0, k) {
                let w = choose|i: int| 0 <= i < b0.len() && b0[i].0 == k;
                assert(b[w].0 == k);
            }
            if has_key(b, k) {
                let w = choose|i: int| 0 <= i < b.len() && b[i].0 == k;
                if w < b.len() - 1 {
                    assert(b0[w].0 == k);
                }
            }
        }
        if last.0 == k {
            assert(!has_key(b0, k)) by {
                if has_key(b0, k) {
                    let w = choose|i: int| 0 <= i < b0.len() && b0[i].0 == k;
                    assert(b[w].0 == b[b.len() - 1].0);
                }
            }
            assert(b0.push(last) =~= b);
            lemma_lookup_push(b0, last, k);
            if !has_key(a, k) {
                lemma_lookup_push(promoted_new(a, b0), (last.0, make_optional(last.1)), k);
            }
        } else {
            if has_key(b0, k) {
                assert(b0.push(last) =~= b);
                lemma_lookup_push(b0, last, k);
            }
            if !has_key(a, last.0) {
                lemma_lookup_push(promoted_new(a, b0), (last.0, make_optional(last.1)), k);
            }
        }
    }
}

/// The promoted tail is empty when `a` carries every key of `b`.
proof fn lemma_promoted_new_all_shared(a: AttrsModel, b: AttrsModel)
    requires
        forall|i: int| 0 <= i < b.len() ==> has_key(a, #[trigger] b[i].0),
    ensures
        promoted_new(a, b) == Seq::<(Seq<char>, ValueTypeOption)>::empty(),
    decreases b.len(),
{
    if b.len() > 0 {
        lemma_promoted_new_all_shared(a, b.subrange(0, b.len() - 1));
        assert(has_key(a, b[b.len() - 1].0));
    }
}

/// MERGE IDEMPOTENCE for attribute schemas: a schema with distinct keys
/// merged with itself comes back unchanged; in particular no key is promoted
/// to optional when both sides agree.
pub proof fn lemma_merge_attrs_idempotent(a: AttrsModel)
    requires
        uniq_keys(a),
    ensures
        merge_attrs_model(a, a) == a,
{
    assert forall|i: int| 0 <= i < a.len() implies merged_shared(a, a)[i] == a[i] by {
        assert(a[i].0 == a[i].0 && 0 <= i < a.len());
        assert(has_key(a, a[i].0));
        assert(forall|j: int| 0 <= j < i ==> a[j].0 != a[i].0);
        lemma_lookup_at(a, a[i].0, i);
    }
    assert forall|i: int| 0 <= i < a.len() implies has_key(a, #[trigger] a[i].0) by {
        assert(0 <= i < a.len() && a[i].0 == a[i].0);
    }
    lemma_promoted_new_all_shared(a, a);
    assert(merge_attrs_model(a, a) =~= a);
}

/// MERGE IDEMPOTENCE for leaf items: an item with distinct attribute keys
/// merged with itself comes back unchanged.
pub proof fn lemma_item_merge_idempotent(m: ItemModel)
    requires
        uniq_keys(m.attributes),
    ensures
        spec_merge_item(m, m) == m,
{
    lemma_merge_attrs_idempotent(m.attributes);
    assert(spec_merge_item(m, m) =~= m);
}

/// A well-formed item list: names pairwise distinct, attribute keys of each
/// item pairwise distinct.
pub open spec fn items_wf(s: Seq<ItemModel>) -> bool {
    &&& item_names_distinct(s)
    &&& forall|i: int| 0 <= i < s.len() ==> uniq_keys(#[trigger] s[i].attributes)
}

/// Folding a concatenation is folding the parts in turn.
proof fn lemma_group_fold_concat(acc: Seq<ItemModel>, s1: Seq<ItemModel>, s2: Seq<ItemModel>)
    ensures
        group_fold(acc, s1 + s2) == group_fold(group_fold(acc, s1), s2),
    decreases s1.len(),
{
    let c = s1 + s2;
    if s1.len() == 0 {
        assert(c =~= s2);
    } else {
        assert(c[0] == s1[0]);
        assert(c.subrange(1, c.len() as int) =~= s1.subrange(1, s1.len() as int) + s2);
        lemma_group_fold_concat(group_step(acc, s1[0]), s1.subrange(1, s1.len() as int), s2);
    }
}

/// Grouping items whose names are fresh to the accumulator appends them.
proof fn lemma_group_fold_all_new(acc: Seq<ItemModel>, s: Seq<ItemModel>)
    requires
        item_names_distinct(s),
        forall|i: int, j: int| 0 <= i < acc.len() && 0 <= j < s.len() ==> acc[i].name != s[j].name,
    ensures
        group_fold(acc, s) == acc + s,
    decreases s.len(),
{
    if s.len() == 0 {
        assert(acc + s =~= acc);
    } else {
        assert(!(exists|i: int| 0 <= i < acc.len() && acc[i].name == s[0].name));
        let acc1 = acc.push(s[0]);
        let t = s.subrange(1, s.len() as int);
        assert(forall|i: int, j: int|
            0 <= i < acc1.len() && 0 <= j < t.len() ==> acc1[i].name != t[j].name);
        lemma_group_fold_all_new(acc1, t);
        assert(acc1 + t =~= acc + s);
    }
}

/// Re-folding items that already stand merged in the accumulator leaves it
/// unchanged.
proof fn lemma_group_fold_absorbed(u: Seq<ItemModel>, s: Seq<ItemModel>)
    requires
        items_wf(u),
        forall|k: int| 0 <= k < s.len() ==> exists|i: int| 0 <= i < u.len() && u[i] == #[trigger] s[k],
    ensures
        group_fold(u, s) == u,
    decreases s.len(),
{
    if s.len() > 0 {
        let i = choose|i: int| 0 <= i < u.len() && u[i] == s[0];
        assert(u[i].name == s[0].name);
        assert(has_name(u, s[0].name)) by {
            assert(0 <= i < u.len() && u[i].name == s[0].name);
        }
        let ch = choose|t: int| 0 <= t < u.len() && u[t].name == s[0].name;
        assert(ch == i) by {
            if ch != i {
                assert(u[ch].name != u[i].name);
            }
        }
        lemma_item_merge_idempotent(u[i]);
        assert(u.update(i, spec_merge_item(u[i], s[0])) =~= u);
        assert(group_step(u, s[0]) == u);
        lemma_group_fold_absorbed(u, s.subrange(1, s.len() as int));
    }
}

/// Whether some item of `s` carries the name `n`.
pub open spec fn has_name(s: Seq<ItemModel>, n: Seq<char>) -> bool {
    exists|i: int| 0 <= i < s.len() && s[i].name == n
}

/// MERGE IDEMPOTENCE: merging a well-formed structural element with itself
/// keeps its name, text kind, attribute schema and item list unchanged — no
/// field becomes optional when both sides agree. Only the nested element
/// list is doubled by concatenation, deeper unification being deferred until
/// emission descends into it.
pub proof fn lemma_elem_merge_idempotent(m: ElemModel)
    requires
        uniq_keys(m.attributes),
        items_wf(m.items),
    ensures
        spec_merge_elem(m, m).name == m.name,
        spec_merge_elem(m, m).value_type == m.value_type,
        spec_merge_elem(m, m).attributes == m.attributes,
        spec_merge_elem(m, m).items == m.items,
        spec_merge_elem(m, m).elements == m.elements + m.elements,
{
    lemma_merge_attrs_idempotent(m.attributes);
    lemma_group_fold_concat(Seq::empty(), m.items, m.items);
    lemma_group_fold_all_new(Seq::empty(), m.items);
    assert(Seq::<ItemModel>::empty() + m.items =~= m.items);
    assert forall|k: int| 0 <= k < m.items.len() implies exists|i: int|
        0 <= i < m.items.len() && m.items[i] == #[trigger] m.items[k] by {
        assert(m.items[k] == m.items[k] && 0 <= k < m.items.len());
    }
    lemma_group_fold_absorbed(m.items, m.items);
}

/// OPTIONAL-PROMOTION SYMMETRY: when the key `k` is carried by `a` and not
/// by `b`, both merge orders carry `k`, and in both the kind is `a`'s kind
/// promoted to optional.
pub proof fn lemma_optional_promotion_symmetry(a: AttrsModel, b: AttrsModel, k: Seq<char>)
    requires
        uniq_keys(a),
        uniq_keys(b),
        has_key(a, k),
        !has_key(b, k),
    ensures
        has_key(merge_attrs_model(a, b), k),
        lookup(merge_attrs_model(a, b), k) == make_optional(lookup(a, k)),
        has_key(merge_attrs_model(b, a), k),
        lookup(merge_attrs_model(b, a), k) == make_optional(lookup(a, k)),
{
    let i = choose|i: int| 0 <= i < a.len() && a[i].0 == k;
    assert(forall|j: int| 0 <= j < i ==> a[j].0 != k) by {
        assert forall|j: int| 0 <= j < i implies a[j].0 != k by {
            assert(a[j].0 != a[i].0);
        }
    }
    lemma_lookup_at(a, k, i);
    // a-then-b: k keeps its place among a's entries and is promoted there
    let shared_ab = merged_shared(a, b);
    assert(shared_ab[i] == (k, make_optional(a[i].1)));
    assert(forall|j: int| 0 <= j < i ==> shared_ab[j].0 != k);
    lemma_lookup_at(shared_ab, k, i);
    lemma_lookup_concat(shared_ab, promoted_new(a, b), k);
    // b-then-a: k is absent from b's entries and joins through the promoted tail
    let shared_ba = merged_shared(b, a);
    assert(!has_key(shared_ba, k)) by {
        if has_key(shared_ba, k) {
            let w = choose|w: int| 0 <= w < shared_ba.len() && shared_ba[w].0 == k;
            assert(b[w].0 == k);
            assert(has_key(b, k));
        }
    }
    lemma_lookup_concat(shared_ba, promoted_new(b, a), k);
    lemma_promoted_new_lookup(b, a, k);
}

/// OPTIONAL PROMOTION IS TRANSITIVE: once a key has been promoted to
/// optional, merging in any further sibling keeps it optional — whether
/// that sibling carries the key or not. So in a left fold over three or
/// more siblings, a key missing from even one of them ends up optional: the
/// merge that sees the absence promotes it, and no later merge reverts it.
pub proof fn lemma_optional_never_reverts(a: AttrsModel, b: AttrsModel, k: Seq<char>)
    requires
        uniq_keys(a),
        has_key(a, k),
        lookup(a, k) is Optional,
    ensures
        has_key(merge_attrs_model(a, b), k),
        lookup(merge_attrs_model(a, b), k) is Optional,
{
    let i = choose|i: int| 0 <= i < a.len() && a[i].0 == k;
    assert(forall|j: int| 0 <= j < i ==> a[j].0 != k) by {
        assert forall|j: int| 0 <= j < i implies a[j].0 != k by {
            assert(a[j].0 != a[i].0);
        }
    }
    lemma_lookup_at(a, k, i);
    let shared = merged_shared(a, b);
    assert(shared[i].0 == k);
    assert(shared[i].1 is Optional);
    assert(forall|j: int| 0 <= j < i ==> shared[j].0 != k);
    lemma_lookup_at(shared, k, i);
    lemma_lookup_concat(shared, promoted_new(a, b), k);
}

} // verus!
