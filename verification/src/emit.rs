//! The code emitter: a depth-first renderer turning a merged schema tree
//! into nested, scope-qualified serde type declarations, with deterministic
//! field order (encounter order) and reserved-word escaping.

use vstd::prelude::*;
use vstd::string::{StrSliceExecFns, StringExecFns};
use crate::kinds::spec_render_vto;
use crate::schema::{
    AttrsModel, ElemModel, Item, ItemModel, XmlElement, group_items, group_merge_items,
    items_model, lemma_elems_model_index, lemma_elems_model_len, spec_merge_elem,
};

verus! {

broadcast use vstd::std_specs::vec::group_vec_axioms, vstd::seq::axiom_seq_index_decreases, vstd::seq::axiom_seq_subrange_decreases;

/// What inflector's pascal-case conversion returns; a function of the
/// characters alone.
pub uninterp spec fn pascal_of(s: Seq<char>) -> Seq<char>;

/// What inflector's snake-case conversion returns; a function of the
/// characters alone.
pub uninterp spec fn snake_of(s: Seq<char>) -> Seq<char>;

/// Relies on inflector's `to_pascal_case`: the result depends on the input
/// characters alone.
#[verifier::external_body]
fn to_pascal_case(s: &str) -> (r: String)
    ensures
        r@ == pascal_of(s@),
{
    inflector::cases::pascalcase::to_pascal_case(s)
}

/// Relies on inflector's `to_snake_case`: the result depends on the input
/// characters alone, and text already in snake case comes back unchanged,
/// as its documentation shows — stated here for the one word the escape
/// rule needs, `type`.
#[verifier::external_body]
fn to_snake_case(s: &str) -> (r: String)
    ensures
        r@ == snake_of(s@),
        s@ == "type"@ ==> r@ == "type"@,
{
    inflector::cases::snakecase::to_snake_case(s)
}

/// The text a field name emits as: a name colliding with the reserved word
/// `type` is renamed with the `_xml` suffix and annotated so the wire name
/// is preserved; any other name stands as it is.
pub open spec fn spec_name_check(s: Seq<char>) -> Seq<char> {
    if s == "type"@ {
        "  #[serde(rename = \"type\")]\n  type_xml"@
    } else {
        s
    }
}

/// Escapes a field name that collides with a reserved word, keeping the
/// original wire name in a rename annotation.
pub fn name_check(name: &str) -> (r: String)
    ensures
        r@ == spec_name_check(name@),
{
    let owned = name.to_owned();
    let reserved = "type".to_owned();
    if owned == reserved {
        "  #[serde(rename = \"type\")]\n  type_xml".to_owned()
    } else {
        owned
    }
}

/// The scope prefix a promoted leaf type is referenced through.
pub open spec fn spec_mod_prefix(m: Option<Seq<char>>) -> Seq<char> {
    match m {
        Some(s) => s + "::"@,
        None => Seq::empty(),
    }
}

/// The type text a leaf field carries: its rendered kind when it has no
/// attributes, else a scope-qualified reference to its promoted declaration.
pub open spec fn spec_item_val_name(it: ItemModel, m: Option<Seq<char>>) -> Seq<char> {
    if it.attributes.len() == 0 {
        spec_render_vto(it.value_type)
    } else {
        spec_mod_prefix(m) + pascal_of(it.name) + "Element"@
    }
}

/// The field line of a leaf item: escaped name, colon, type text.
pub open spec fn spec_item_line(it: ItemModel, m: Option<Seq<char>>) -> Seq<char> {
    spec_name_check(it.name) + ": "@ + spec_item_val_name(it, m)
}

/// The attribute fields of a promoted leaf declaration, one line each, in
/// encounter order.
pub open spec fn spec_attr_fields(attrs: AttrsModel) -> Seq<char>
    decreases attrs.len(),
{
    if attrs.len() == 0 {
        Seq::empty()
    } else {
        let front = spec_attr_fields(attrs.subrange(0, attrs.len() - 1));
        let last = attrs[attrs.len() - 1];
        front + spec_name_check(snake_of(last.0)) + ": "@ + spec_render_vto(last.1) + ",\n"@
    }
}

/// Whether the text `needle` stands somewhere inside `hay`.
pub open spec fn text_contains(hay: Seq<char>, needle: Seq<char>) -> bool {
    exists|j: int|
        0 <= j && j + needle.len() <= hay.len() && #[trigger] hay.subrange(j, j + needle.len())
            == needle
}

/// RESERVED-WORD ESCAPING of a leaf's own field name: a leaf item named
/// `type` always emits the renamed in-memory field `type_xml` together with
/// the annotation preserving the wire name.
pub proof fn lemma_reserved_leaf_line(it: ItemModel, m: Option<Seq<char>>)
    requires
        it.name == "type"@,
    ensures
        spec_item_line(it, m) == "  #[serde(rename = \"type\")]\n  type_xml"@ + ": "@
            + spec_item_val_name(it, m),
{
}

/// RESERVED-WORD ESCAPING of attribute keys: an attribute whose snake-cased
/// key is `type` (the key `type` itself stays unchanged under the
/// conversion, as its wrapper states) always emits its field line renamed
/// to `type_xml` with the annotation preserving the wire name.
pub proof fn lemma_reserved_attr_field(attrs: AttrsModel, i: int)
    requires
        0 <= i < attrs.len(),
        snake_of(attrs[i].0) == "type"@,
    ensures
        text_contains(
            spec_attr_fields(attrs),
            "  #[serde(rename = \"type\")]\n  type_xml"@ + ": "@ + spec_render_vto(attrs[i].1)
                + ",\n"@,
        ),
    decreases attrs.len(),
{
    let n = "  #[serde(rename = \"type\")]\n  type_xml"@ + ": "@ + spec_render_vto(attrs[i].1)
        + ",\n"@;
    let hay = spec_attr_fields(attrs);
    let front = attrs.subrange(0, attrs.len() - 1);
    if i == attrs.len() - 1 {
        let j = spec_attr_fields(front).len() as int;
        assert(hay =~= spec_attr_fields(front) + n);
        assert(hay.subrange(j, j + n.len()) =~= n);
        assert(text_contains(hay, n));
    } else {
        assert(front[i] == attrs[i]);
        lemma_reserved_attr_field(front, i);
        let j = choose|j: int|
            0 <= j && j + n.len() <= spec_attr_fields(front).len() && #[trigger] spec_attr_fields(
                front,
            ).subrange(j, j + n.len()) == n;
        let last = attrs[attrs.len() - 1];
        let lastline = spec_name_check(snake_of(last.0)) + ": "@ + spec_render_vto(last.1)
            + ",\n"@;
        assert(hay =~= spec_attr_fields(front) + lastline);
        assert(hay.subrange(j, j + n.len()) =~= n);
        assert(text_contains(hay, n));
    }
}

/// The promoted declaration of a leaf item that carries attributes: a
/// struct named after the item with an `Element` suffix, holding the text
/// content under a `$value` rename and one field per attribute.
pub open spec fn spec_item_struct(it: ItemModel) -> Seq<char> {
    "\n#[derive(Debug, Deserialize)]\npub struct "@ + pascal_of(it.name) + "Element {\n  #[serde(rename = \"$value\")]\n  content_xml: "@
        + spec_render_vto(it.value_type) + ",\n"@ + spec_attr_fields(it.attributes) + "\n}\n"@
}

impl Item {
    /// Renders this leaf item: its field line, and, when it carries
    /// attributes, the promoted struct declaration to be scoped inside the
    /// parent's namespace.
    pub fn as_serde(&self, mod_name: &Option<String>) -> (r: (String, Option<String>))
        ensures
            r.0@ == spec_item_line(self@, opt_str_model(*mod_name)),
            (self@.attributes.len() == 0) == (r.1 is None),
            r.1 is Some ==> r.1->0@ == spec_item_struct(self@),
    {
        let val_name: String = if self.attributes.len() == 0 {
            self.value_type.render()
        } else {
            let mut v = String::new();
            match mod_name {
                Some(f) => {
                    v.append(f.as_str());
                    v.append("::");
                },
                None => {},
            }
            let pascal = to_pascal_case(self.name.as_str());
            v.append(pascal.as_str());
            v.append("Element");
            v
        };
        let mut line = name_check(self.name.as_str());
        line.append(": ");
        line.append(val_name.as_str());
        let new_struct: Option<String> = if self.attributes.len() == 0 {
            None
        } else {
            let pascal = to_pascal_case(self.name.as_str());
            let mut st = String::new();
            st.append("\n#[derive(Debug, Deserialize)]\npub struct ");
            st.append(pascal.as_str());
            st.append("Element {\n  #[serde(rename = \"$value\")]\n  content_xml: ");
            let vt = self.value_type.render();
            st.append(vt.as_str());
            st.append(",\n");
            let mut i: usize = 0;
            while i < self.attributes.len()
                invariant
                    i <= self.attributes@.len(),
                    st@ == "\n#[derive(Debug, Deserialize)]\npub struct "@ + pascal_of(
                        self.name@,
                    ) + "Element {\n  #[serde(rename = \"$value\")]\n  content_xml: "@
                        + spec_render_vto(self.value_type) + ",\n"@ + spec_attr_fields(
                        self@.attributes.subrange(0, i as int),
                    ),
                decreases self.attributes@.len() - i,
            {
                let snake = to_snake_case(self.attributes[i].0.as_str());
                let checked = name_check(snake.as_str());
                st.append(checked.as_str());
                st.append(": ");
                let at = self.attributes[i].1.render();
                st.append(at.as_str());
                st.append(",\n");
                proof {
                    let sub = self@.attributes.subrange(0, i + 1);
                    assert(sub.subrange(0, sub.len() - 1) =~= self@.attributes.subrange(
                        0,
                        i as int,
                    ));
                    assert(sub[sub.len() - 1] == self@.attributes[i as int]);
                }
                i += 1;
            }
            st.append("\n}\n");
            proof {
                assert(self@.attributes.subrange(0, self@.attributes.len() as int)
                    =~= self@.attributes);
            }
            Some(st)
        };
        (line, new_struct)
    }
}

/// The model of an optional module name.
pub open spec fn opt_str_model(m: Option<String>) -> Option<Seq<char>> {
    match m {
        Some(s) => Some(s@),
        None => None,
    }
}

/// The field lines of the element's leaf items, each indented and
/// comma-terminated, in order.
pub open spec fn spec_item_lines(items: Seq<ItemModel>, m: Option<Seq<char>>) -> Seq<char>
    decreases items.len(),
{
    if items.len() == 0 {
        Seq::empty()
    } else {
        spec_item_lines(items.subrange(0, items.len() - 1), m) + "  "@ + spec_item_line(
            items[items.len() - 1],
            m,
        ) + ",\n"@
    }
}

/// The promoted declarations of the items that carry attributes, in order.
pub open spec fn spec_structs_list(items: Seq<ItemModel>) -> Seq<Seq<char>>
    decreases items.len(),
{
    if items.len() == 0 {
        Seq::empty()
    } else {
        spec_structs_list(items.subrange(0, items.len() - 1)) + (
        if items[items.len() - 1].attributes.len() > 0 {
            seq![spec_item_struct(items[items.len() - 1])]
        } else {
            Seq::empty()
        })
    }
}

/// The parts joined with the separator between neighbours.
pub open spec fn spec_join(parts: Seq<Seq<char>>, sep: Seq<char>) -> Seq<char>
    decreases parts.len(),
{
    if parts.len() == 0 {
        Seq::empty()
    } else if parts.len() == 1 {
        parts[0]
    } else {
        spec_join(parts.subrange(0, parts.len() - 1), sep) + sep + parts[parts.len() - 1]
    }
}

/// The fold of the same-slot structural siblings `elems[0 .. n]` through the
/// pairwise merge, left to right.
pub open spec fn spec_merge_upto(elems: Seq<ElemModel>, n: int) -> ElemModel
    decreases n,
{
    if n <= 1 {
        elems[0]
    } else {
        spec_merge_elem(spec_merge_upto(elems, n - 1), elems[n - 1])
    }
}

/// The nesting depth of an element: one more than the deepest nested child.
pub open spec fn edepth(e: ElemModel) -> nat
    decreases e, 0int,
{
    1 + edepth_list(e.elements)
}

/// The deepest nesting depth among the elements.
pub open spec fn edepth_list(s: Seq<ElemModel>) -> nat
    decreases s, s.len(),
{
    if s.len() == 0 {
        0
    } else {
        let first = edepth(s[0]);
        let rest = edepth_list(s.subrange(1, s.len() as int));
        if first >= rest {
            first
        } else {
            rest
        }
    }
}

proof fn lemma_edepth_list_bound(s: Seq<ElemModel>, i: int)
    requires
        0 <= i < s.len(),
    ensures
        edepth(s[i]) <= edepth_list(s),
    decreases s.len(),
{
    if i > 0 {
        let t = s.subrange(1, s.len() as int);
        lemma_edepth_list_bound(t, i - 1);
        assert(t[i - 1] == s[i]);
    }
}

proof fn lemma_edepth_list_concat(a: Seq<ElemModel>, b: Seq<ElemModel>)
    ensures
        edepth_list(a + b) == if edepth_list(a) >= edepth_list(b) {
            edepth_list(a)
        } else {
            edepth_list(b)
        },
    decreases a.len(),
{
    let c = a + b;
    if a.len() == 0 {
        assert(c =~= b);
    } else {
        assert(c[0] == a[0]);
        assert(c.subrange(1, c.len() as int) =~= a.subrange(1, a.len() as int) + b);
        lemma_edepth_list_concat(a.subrange(1, a.len() as int), b);
    }
}

proof fn lemma_merge_depth(a: ElemModel, b: ElemModel)
    ensures
        edepth(spec_merge_elem(a, b)) == if edepth(a) >= edepth(b) {
            edepth(a)
        } else {
            edepth(b)
        },
{
    lemma_edepth_list_concat(a.elements, b.elements);
}

proof fn lemma_merge_upto_depth(elems: Seq<ElemModel>, n: int)
    requires
        1 <= n <= elems.len(),
    ensures
        edepth(spec_merge_upto(elems, n)) <= edepth_list(elems),
    decreases n,
{
    if n == 1 {
        lemma_edepth_list_bound(elems, 0);
    } else {
        lemma_merge_upto_depth(elems, n - 1);
        lemma_merge_depth(spec_merge_upto(elems, n - 1), elems[n - 1]);
        lemma_edepth_list_bound(elems, n - 1);
    }
}

/// The emitted declaration block of one structural element: its own struct
/// (leaf items grouped and merged first, so repeated leaves collapse to one
/// field), the namespace scoping the promoted leaf declarations, and one
/// declaration for all repeated child elements, merged across the observed
/// slots and rendered depth-first after the parent.
pub open spec fn spec_emit(e: ElemModel) -> Seq<char>
    decreases edepth(e),
    when edepth(e) >= 1
    via spec_emit_decreases
{
    let grouped = group_items(e.items);
    let m = snake_of(e.name);
    let structs = spec_structs_list(grouped);
    let merged = spec_merge_upto(e.elements, e.elements.len() as int);
    "\n#[derive(Debug, Deserialize)]\npub struct "@ + pascal_of(e.name) + " {\n"@
        + spec_item_lines(grouped, Some(m)) + (
    if e.elements.len() > 0 {
        "  "@ + spec_name_check(snake_of(pascal_of(merged.name))) + ": Vec<"@ + pascal_of(
            merged.name,
        ) + ">,\n"@
    } else {
        Seq::empty()
    }) + "\n}\n"@ + (
    if structs.len() > 0 {
        "\npub mod "@ + m + "{\nuse super::*;\n"@ + spec_join(structs, "\n\n"@) + "\n}"@
    } else {
        Seq::empty()
    }) + (
    if e.elements.len() > 0 {
        spec_emit(merged)
    } else {
        Seq::empty()
    })
}

#[via_fn]
proof fn spec_emit_decreases(e: ElemModel) {
    if e.elements.len() > 0 {
        lemma_merge_upto_depth(e.elements, e.elements.len() as int);
    }
}

impl XmlElement {
    /// Renders this element and everything below it as one text block:
    /// its own declaration, the scoped declarations of its attributed leaf
    /// items, and the merged declaration of its repeated child elements,
    /// depth-first.
    pub fn as_serde(&self) -> (r: String)
        ensures
            r@ == spec_emit(self@),
        decreases edepth(self@),
    {
        let grouped = group_merge_items(&self.items);
        let ghost gm = group_items(self@.items);
        let ghost msnake = snake_of(self.name@);
        let mod_name = to_snake_case(self.name.as_str());
        let pascal = to_pascal_case(self.name.as_str());
        let mut el = String::new();
        el.append("\n#[derive(Debug, Deserialize)]\npub struct ");
        el.append(pascal.as_str());
        el.append(" {\n");
        let ghost header = "\n#[derive(Debug, Deserialize)]\npub struct "@ + pascal_of(
            self.name@,
        ) + " {\n"@;
        let mut structs: Vec<String> = Vec::new();
        let mut i: usize = 0;
        while i < grouped.len()
            invariant
                i <= grouped@.len(),
                gm == items_model(grouped@),
                msnake == snake_of(self.name@),
                mod_name@ == msnake,
                el@ == header + spec_item_lines(gm.subrange(0, i as int), Some(msnake)),
                structs@.map_values(|s: String| s@) =~= spec_structs_list(
                    gm.subrange(0, i as int),
                ),
            decreases grouped@.len() - i,
        {
            let m_arg = Some(mod_name.clone());
            let pair = grouped[i].as_serde(&m_arg);
            el.append("  ");
            el.append(pair.0.as_str());
            el.append(",\n");
            match pair.1 {
                Some(s) => {
                    structs.push(s);
                },
                None => {},
            }
            proof {
                let sub = gm.subrange(0, i + 1);
                assert(sub.subrange(0, sub.len() - 1) =~= gm.subrange(0, i as int));
                assert(sub[sub.len() - 1] == gm[i as int]);
                assert(el@ =~= header + spec_item_lines(sub, Some(msnake)));
                assert(structs@.map_values(|s: String| s@) =~= spec_structs_list(sub));
            }
            i += 1;
        }
        proof {
            assert(gm.subrange(0, gm.len() as int) =~= gm);
        }
        let ghost lines_done = el@;
        let ghost merged_model = spec_merge_upto(self@.elements, self@.elements.len() as int);
        let mut child_text: Option<String> = None;
        if self.elements.len() > 0 {
            proof {
                lemma_elems_model_len(self.elements@);
                lemma_elems_model_index(self.elements@, 0);
            }
            let mut merged = self.elements[0].duplicate();
            let mut k: usize = 1;
            while k < self.elements.len()
                invariant
                    1 <= k <= self.elements@.len(),
                    self@.elements.len() == self.elements@.len(),
                    merged@ == spec_merge_upto(self@.elements, k as int),
                decreases self.elements@.len() - k,
            {
                proof {
                    lemma_elems_model_index(self.elements@, k as int);
                }
                let m2 = merged.merge(&self.elements[k]);
                merged = m2;
                k += 1;
            }
            let name_p = to_pascal_case(merged.name.as_str());
            let snake_p = to_snake_case(name_p.as_str());
            let checked = name_check(snake_p.as_str());
            el.append("  ");
            el.append(checked.as_str());
            el.append(": Vec<");
            el.append(name_p.as_str());
            el.append(">,\n");
            proof {
                assert(merged@.name == merged_model.name);
                assert(el@ =~= lines_done + ("  "@ + spec_name_check(
                    snake_of(pascal_of(merged_model.name)),
                ) + ": Vec<"@ + pascal_of(merged_model.name) + ">,\n"@));
                lemma_merge_upto_depth(self@.elements, self@.elements.len() as int);
            }
            let ct = merged.as_serde();
            child_text = Some(ct);
        }
        el.append("\n}\n");
        let ghost smodel = spec_structs_list(gm);
        if structs.len() > 0 {
            el.append("\npub mod ");
            el.append(mod_name.as_str());
            el.append("{\nuse super::*;\n");
            let ghost join_base = el@;
            proof {
                assert(el@ =~= join_base + spec_join(smodel.subrange(0, 0), "\n\n"@));
            }
            let mut j: usize = 0;
            while j < structs.len()
                invariant
                    j <= structs@.len(),
                    smodel == structs@.map_values(|s: String| s@),
                    el@ == join_base + spec_join(smodel.subrange(0, j as int), "\n\n"@),
                decreases structs@.len() - j,
            {
                if j > 0 {
                    el.append("\n\n");
                }
                el.append(structs[j].as_str());
                proof {
                    let sub = smodel.subrange(0, j + 1);
                    assert(sub.subrange(0, sub.len() - 1) =~= smodel.subrange(0, j as int));
                    assert(sub[sub.len() - 1] == smodel[j as int]);
                    assert(el@ =~= join_base + spec_join(sub, "\n\n"@));
                }
                j += 1;
            }
            el.append("\n}");
            proof {
                assert(smodel.subrange(0, smodel.len() as int) =~= smodel);
            }
        }
        match child_text {
            Some(ct) => {
                el.append(ct.as_str());
            },
            None => {},
        }
        proof {
            assert(el@ =~= spec_emit(self@));
        }
        el
    }
}

} // verus!
