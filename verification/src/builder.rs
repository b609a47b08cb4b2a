//! The stack-based tree builder: it folds the tokenizer's event stream into
//! one schema tree, surfacing malformed-document shapes as typed errors.

use vstd::prelude::*;
use crate::classify::{guess_type, spec_classify};
use crate::kinds::{ValueKind, ValueTypeOption};
use crate::schema::{
    Attr, AttrsModel, ElemModel, Item, ItemModel, XmlElement, attrs_model, elems_model,
    items_model,
};

verus! {

broadcast use vstd::std_specs::vec::group_vec_axioms;

/// One event of the document, reduced to plain values: an opening tag with
/// its attribute texts, a text run, or a closing tag.
#[derive(Debug)]
pub enum XmlToken {
    Start(String, Vec<(String, String)>),
    Text(String),
    End(String),
}

/// The model of a token.
pub enum TokenModel {
    Start(Seq<char>, Seq<(Seq<char>, Seq<char>)>),
    Text(Seq<char>),
    End(Seq<char>),
}

/// The model of a raw attribute list.
pub open spec fn raw_attrs_model(a: Seq<(String, String)>) -> Seq<(Seq<char>, Seq<char>)> {
    a.map_values(|p: (String, String)| (p.0@, p.1@))
}

impl View for XmlToken {
    type V = TokenModel;

    open spec fn view(&self) -> TokenModel {
        match self {
            XmlToken::Start(name, attrs) => TokenModel::Start(name@, raw_attrs_model(attrs@)),
            XmlToken::Text(text) => TokenModel::Text(text@),
            XmlToken::End(name) => TokenModel::End(name@),
        }
    }
}

/// The models of a token list, in order.
pub open spec fn tokens_model(s: Seq<XmlToken>) -> Seq<TokenModel> {
    s.map_values(|t: XmlToken| t@)
}

/// A malformed-document shape, carrying the offending tag names.
#[derive(Debug)]
pub enum ParseError {
    /// A closing tag whose name does not match the innermost open element.
    MismatchedClose { expected: String, found: String },
    /// A closing tag with no open element left to close.
    UnmatchedClose { found: String },
    /// End of document with elements still open: their names, outermost
    /// first.
    Unclosed { open: Vec<String> },
    /// A complete document whose root carries no structural element.
    NoRootElement,
}

/// The model of a parse error.
pub enum ParseErrorModel {
    MismatchedClose { expected: Seq<char>, found: Seq<char> },
    UnmatchedClose { found: Seq<char> },
    Unclosed { open: Seq<Seq<char>> },
    NoRootElement,
}

/// The models of a list of names, in order.
pub open spec fn names_model(v: Seq<String>) -> Seq<Seq<char>> {
    v.map_values(|s: String| s@)
}

impl View for ParseError {
    type V = ParseErrorModel;

    open spec fn view(&self) -> ParseErrorModel {
        match self {
            ParseError::MismatchedClose { expected, found } => ParseErrorModel::MismatchedClose {
                expected: expected@,
                found: found@,
            },
            ParseError::UnmatchedClose { found } => ParseErrorModel::UnmatchedClose {
                found: found@,
            },
            ParseError::Unclosed { open } => ParseErrorModel::Unclosed {
                open: names_model(open@),
            },
            ParseError::NoRootElement => ParseErrorModel::NoRootElement,
        }
    }
}

/// Each attribute text classified to its kind; the result always starts
/// `Required`.
pub open spec fn classify_attrs(a: Seq<(Seq<char>, Seq<char>)>) -> AttrsModel {
    a.map_values(
        |p: (Seq<char>, Seq<char>)| (p.0, ValueTypeOption::Required(spec_classify(p.1))),
    )
}

/// A freshly opened element: no children yet, text kind unset.
pub open spec fn opened_elem(name: Seq<char>, attrs: Seq<(Seq<char>, Seq<char>)>) -> ElemModel {
    ElemModel {
        name: name,
        attributes: classify_attrs(attrs),
        items: Seq::empty(),
        value_type: ValueTypeOption::Required(ValueKind::Unset),
        elements: Seq::empty(),
    }
}

/// The synthetic root that is pre-pushed before any token is consumed.
pub open spec fn root_elem() -> ElemModel {
    ElemModel {
        name: Seq::empty(),
        attributes: Seq::empty(),
        items: Seq::empty(),
        value_type: ValueTypeOption::Required(ValueKind::Unset),
        elements: Seq::empty(),
    }
}

/// The closed element demoted to a leaf item: it had no nested children.
pub open spec fn demoted_item(e: ElemModel) -> ItemModel {
    ItemModel { name: e.name, value_type: e.value_type, attributes: e.attributes }
}

/// One transition of the tree builder. `Start` pushes a fresh element;
/// `Text` overwrites the top element's own kind (a later run wins); `End`
/// pops the top element and attaches it to the new top — demoted to a leaf
/// item when it had neither nested elements nor items — and fails on a
/// mismatched or unmatched closing tag.
pub open spec fn spec_step(stack: Seq<ElemModel>, t: TokenModel) -> Result<
    Seq<ElemModel>,
    ParseErrorModel,
> {
    match t {
        TokenModel::Start(name, attrs) => Ok(stack.push(opened_elem(name, attrs))),
        TokenModel::Text(text) => {
            if stack.len() == 0 {
                Err(arbitrary())
            } else {
                let top = stack[stack.len() - 1];
                Ok(
                    stack.update(
                        stack.len() - 1,
                        ElemModel {
                            value_type: ValueTypeOption::Required(spec_classify(text)),
                            ..top
                        },
                    ),
                )
            }
        },
        TokenModel::End(name) => {
            if stack.len() <= 1 {
                Err(ParseErrorModel::UnmatchedClose { found: name })
            } else {
                let top = stack[stack.len() - 1];
                if top.name != name {
                    Err(ParseErrorModel::MismatchedClose { expected: top.name, found: name })
                } else {
                    let parent = stack[stack.len() - 2];
                    let parent2 = if top.elements.len() == 0 && top.items.len() == 0 {
                        ElemModel { items: parent.items.push(demoted_item(top)), ..parent }
                    } else {
                        ElemModel { elements: parent.elements.push(top), ..parent }
                    };
                    Ok(stack.subrange(0, stack.len() - 2).push(parent2))
                }
            }
        },
    }
}

/// Runs the machine over the tokens, stopping at the first failure.
pub open spec fn spec_run_from(stack: Seq<ElemModel>, toks: Seq<TokenModel>) -> Result<
    Seq<ElemModel>,
    ParseErrorModel,
>
    decreases toks.len(),
{
    if toks.len() == 0 {
        Ok(stack)
    } else {
        match spec_step(stack, toks[0]) {
            Ok(next) => spec_run_from(next, toks.subrange(1, toks.len() as int)),
            Err(e) => Err(e),
        }
    }
}

/// The machine run from the synthetic root alone.
pub open spec fn spec_run(toks: Seq<TokenModel>) -> Result<Seq<ElemModel>, ParseErrorModel> {
    spec_run_from(seq![root_elem()], toks)
}

/// The names of the user elements still open on the stack, outermost first.
pub open spec fn open_names(stack: Seq<ElemModel>) -> Seq<Seq<char>> {
    open_names_upto(stack, stack.len() as int)
}

/// The complete build: the run must end with exactly the synthetic root on
/// the stack; leftover elements signal unclosed tags, reported with the
/// whole remaining stack of names.
pub open spec fn spec_build(toks: Seq<TokenModel>) -> Result<ElemModel, ParseErrorModel> {
    match spec_run(toks) {
        Ok(stack) => {
            if stack.len() == 1 {
                Ok(stack[0])
            } else {
                Err(ParseErrorModel::Unclosed { open: open_names(stack) })
            }
        },
        Err(e) => Err(e),
    }
}

proof fn lemma_run_from_snoc(stack: Seq<ElemModel>, toks: Seq<TokenModel>, t: TokenModel)
    ensures
        spec_run_from(stack, toks.push(t)) == match spec_run_from(stack, toks) {
            Ok(s) => spec_step(s, t),
            Err(e) => Err(e),
        },
    decreases toks.len(),
{
    let sp = toks.push(t);
    if toks.len() == 0 {
        reveal_with_fuel(spec_run_from, 2);
        assert(sp[0] == t);
        assert(sp.subrange(1, sp.len() as int) =~= Seq::<TokenModel>::empty());
        if spec_step(stack, t) is Ok {
            assert(spec_run_from(stack, sp) == spec_step(stack, t));
        }
    } else {
        assert(sp[0] == toks[0]);
        assert(sp.subrange(1, sp.len() as int) =~= toks.subrange(1, toks.len() as int).push(t));
        match spec_step(stack, toks[0]) {
            Ok(next) => {
                lemma_run_from_snoc(next, toks.subrange(1, toks.len() as int), t);
            },
            Err(e) => {},
        }
    }
}

/// The number of opening tags among the tokens.
pub open spec fn count_starts(toks: Seq<TokenModel>) -> int
    decreases toks.len(),
{
    if toks.len() == 0 {
        0
    } else {
        count_starts(toks.subrange(0, toks.len() - 1)) + match toks[toks.len() - 1] {
            TokenModel::Start(_, _) => 1int,
            _ => 0int,
        }
    }
}

/// The number of closing tags among the tokens.
pub open spec fn count_ends(toks: Seq<TokenModel>) -> int
    decreases toks.len(),
{
    if toks.len() == 0 {
        0
    } else {
        count_ends(toks.subrange(0, toks.len() - 1)) + match toks[toks.len() - 1] {
            TokenModel::End(_) => 1int,
            _ => 0int,
        }
    }
}

/// BALANCE INVARIANT: while a well-formed document is consumed, every prefix
/// of the run succeeds, the synthetic root is never popped — the depth of
/// open user elements, one less than the stack length, never goes below
/// zero — that depth equals the opening tags seen minus the closing tags
/// seen, and it returns to zero at end-of-document. On a document with a
/// single root element every interior prefix keeps more tags open than
/// closed, so the depth returns to zero exactly once, at the end.
pub proof fn lemma_balance(toks: Seq<TokenModel>, i: int)
    requires
        spec_build(toks) is Ok,
        0 <= i <= toks.len(),
    ensures
        spec_run(toks.subrange(0, i)) is Ok,
        spec_run(toks.subrange(0, i))->Ok_0.len() == 1 + count_starts(toks.subrange(0, i))
            - count_ends(toks.subrange(0, i)),
        spec_run(toks.subrange(0, i))->Ok_0.len() >= 1,
        i == toks.len() ==> spec_run(toks.subrange(0, i))->Ok_0.len() == 1,
    decreases i,
{
    if i == 0 {
        assert(toks.subrange(0, 0) =~= Seq::<TokenModel>::empty());
    } else {
        lemma_balance(toks, i - 1);
        let pre = toks.subrange(0, i - 1);
        let cur = toks.subrange(0, i);
        assert(cur.subrange(0, cur.len() - 1) =~= pre);
        assert(cur[cur.len() - 1] == toks[i - 1]);
        lemma_run_from_snoc(seq![root_elem()], pre, toks[i - 1]);
        assert(cur =~= pre.push(toks[i - 1]));
        // a failing prefix would fail the whole run
        if spec_run(cur) is Err {
            lemma_run_prefix_err(toks, i);
            assert(false);
        }
        let st_pre = spec_run(pre)->Ok_0;
        let st_cur = spec_run(cur)->Ok_0;
        match toks[i - 1] {
            TokenModel::Start(name, attrs) => {
                assert(st_cur.len() == st_pre.len() + 1);
            },
            TokenModel::Text(text) => {
                assert(st_cur.len() == st_pre.len());
            },
            TokenModel::End(name) => {
                assert(st_cur.len() == st_pre.len() - 1);
            },
        }
        if i == toks.len() {
            assert(cur =~= toks);
        }
    }
}

/// On a single-root document — one whose interior prefixes all keep more
/// tags open than closed — the depth of open user elements is positive on
/// every interior prefix and zero at end-of-document alone: it returns to
/// zero exactly once.
pub proof fn lemma_balance_single_root(toks: Seq<TokenModel>, i: int)
    requires
        spec_build(toks) is Ok,
        0 < i < toks.len(),
        count_starts(toks.subrange(0, i)) > count_ends(toks.subrange(0, i)),
    ensures
        spec_run(toks.subrange(0, i)) is Ok,
        spec_run(toks.subrange(0, i))->Ok_0.len() >= 2,
{
    lemma_balance(toks, i);
}

/// A run that fails on some prefix fails as a whole.
proof fn lemma_run_prefix_err(toks: Seq<TokenModel>, i: int)
    requires
        0 <= i <= toks.len(),
        spec_run(toks.subrange(0, i)) is Err,
    ensures
        spec_run(toks) is Err,
{
    lemma_run_split(seq![root_elem()], toks.subrange(0, i), toks.subrange(i, toks.len() as int));
    assert(toks.subrange(0, i) + toks.subrange(i, toks.len() as int) =~= toks);
}

/// Running a concatenation is running the parts in turn.
proof fn lemma_run_split(stack: Seq<ElemModel>, a: Seq<TokenModel>, b: Seq<TokenModel>)
    ensures
        spec_run_from(stack, a + b) == match spec_run_from(stack, a) {
            Ok(s) => spec_run_from(s, b),
            Err(e) => Err::<Seq<ElemModel>, ParseErrorModel>(e),
        },
    decreases a.len(),
{
    let c = a + b;
    if a.len() == 0 {
        assert(c =~= b);
    } else {
        assert(c[0] == a[0]);
        assert(c.subrange(1, c.len() as int) =~= a.subrange(1, a.len() as int) + b);
        match spec_step(stack, a[0]) {
            Ok(next) => {
                lemma_run_split(next, a.subrange(1, a.len() as int), b);
            },
            Err(e) => {},
        }
    }
}

/// Classifies each raw attribute of an opening tag.
fn classify_attr_list(attrs: &Vec<(String, String)>) -> (r: Vec<Attr>)
    ensures
        attrs_model(r@) == classify_attrs(raw_attrs_model(attrs@)),
{
    let mut out: Vec<Attr> = Vec::new();
    let mut i: usize = 0;
    while i < attrs.len()
        invariant
            i <= attrs@.len(),
            out@.len() == i,
            attrs_model(out@) =~= classify_attrs(raw_attrs_model(attrs@.subrange(0, i as int))),
        decreases attrs@.len() - i,
    {
        let ghost pre = out@;
        let kind = guess_type(attrs[i].1.as_str());
        out.push((attrs[i].0.clone(), kind));
        proof {
            assert(attrs_model(out@) =~= attrs_model(pre).push(
                (attrs@[i as int].0@, ValueTypeOption::Required(spec_classify(attrs@[i as int].1@))),
            ));
            assert(attrs_model(out@) =~= classify_attrs(
                raw_attrs_model(attrs@.subrange(0, i + 1)),
            ));
        }
        i += 1;
    }
    proof {
        assert(attrs@.subrange(0, attrs@.len() as int) =~= attrs@);
    }
    out
}

/// Once a step fails, the whole build fails with that error.
proof fn lemma_whole_run_err(toks: Seq<TokenModel>, i: int, e: ParseErrorModel)
    requires
        0 <= i < toks.len(),
        spec_run(toks.subrange(0, i)) is Ok,
        spec_step(spec_run(toks.subrange(0, i))->Ok_0, toks[i]) == Err::<
            Seq<ElemModel>,
            ParseErrorModel,
        >(e),
    ensures
        spec_build(toks) == Err::<ElemModel, ParseErrorModel>(e),
{
    let a = toks.subrange(0, i);
    let b = toks.subrange(i, toks.len() as int);
    lemma_run_split(seq![root_elem()], a, b);
    assert(a + b =~= toks);
    assert(b[0] == toks[i]);
}

/// Consumes the token stream with a stack of open elements, pre-pushed with
/// a synthetic root, and returns that root once every element is attached.
/// Fails exactly on the malformed shapes: a closing tag that matches no
/// open element, and elements left open at end of stream.
pub fn build_tree(tokens: &Vec<XmlToken>) -> (r: Result<XmlElement, ParseError>)
    ensures
        match r {
            Ok(root) => spec_build(tokens_model(tokens@)) == Ok::<ElemModel, ParseErrorModel>(
                root@,
            ),
            Err(e) => spec_build(tokens_model(tokens@)) == Err::<ElemModel, ParseErrorModel>(e@),
        },
{
    let ghost tm = tokens_model(tokens@);
    let mut stack: Vec<XmlElement> = Vec::new();
    stack.push(XmlElement {
        name: String::new(),
        attributes: Vec::new(),
        items: Vec::new(),
        value_type: ValueTypeOption::Required(ValueKind::Unset),
        elements: Vec::new(),
    });
    proof {
        crate::schema::lemma_elems_model_len(stack@);
        crate::schema::lemma_elems_model_index(stack@, 0);
        assert(stack@[0]@ =~= root_elem());
        assert(elems_model(stack@) =~= seq![root_elem()]);
        assert(tm.subrange(0, 0) =~= Seq::<TokenModel>::empty());
    }
    let mut i: usize = 0;
    while i < tokens.len()
        invariant
            i <= tokens@.len(),
            tm == tokens_model(tokens@),
            stack@.len() >= 1,
            elems_model(stack@).len() == stack@.len(),
            spec_run(tm.subrange(0, i as int)) == Ok::<Seq<ElemModel>, ParseErrorModel>(
                elems_model(stack@),
            ),
        decreases tokens@.len() - i,
    {
        let ghost head_stack = stack@;
        let ghost pre_stack = elems_model(stack@);
        proof {
            lemma_run_from_snoc(seq![root_elem()], tm.subrange(0, i as int), tm[i as int]);
            assert(tm.subrange(0, i as int).push(tm[i as int]) =~= tm.subrange(0, i + 1));
        }
        match &tokens[i] {
            XmlToken::Start(name, attrs) => {
                let attributes = classify_attr_list(attrs);
                let ghost snap = stack@;
                let fresh = XmlElement {
                    name: name.clone(),
                    attributes,
                    items: Vec::new(),
                    value_type: ValueTypeOption::Required(ValueKind::Unset),
                    elements: Vec::new(),
                };
                let ghost fresh_model = fresh@;
                stack.push(fresh);
                proof {
                    crate::schema::lemma_elems_model_push(snap, stack@[stack@.len() - 1]);
                    assert(fresh_model =~= opened_elem(name@, raw_attrs_model(attrs@)));
                    assert(elems_model(stack@) =~= pre_stack.push(
                        opened_elem(name@, raw_attrs_model(attrs@)),
                    ));
                    crate::schema::lemma_elems_model_len(stack@);
                }
            },
            XmlToken::Text(text) => {
                let kind = guess_type(text.as_str());
                let cur = stack.pop().unwrap();
                let ghost cur_model = cur@;
                let ghost snap = stack@;
                let updated = XmlElement { value_type: kind, ..cur };
                let ghost updated_model = updated@;
                stack.push(updated);
                proof {
                    crate::schema::lemma_elems_model_push(snap, stack@[stack@.len() - 1]);
                    crate::schema::lemma_elems_model_subrange(head_stack, 0, head_stack.len() - 1);
                    crate::schema::lemma_elems_model_index(head_stack, head_stack.len() - 1);
                    assert(pre_stack.subrange(0, pre_stack.len() - 1) =~= elems_model(snap));
                    assert(pre_stack[pre_stack.len() - 1] == cur_model);
                    assert(updated_model =~= ElemModel {
                        value_type: ValueTypeOption::Required(spec_classify(text@)),
                        ..cur_model
                    });
                    assert(elems_model(stack@) =~= pre_stack.update(
                        pre_stack.len() - 1,
                        updated_model,
                    ));
                    crate::schema::lemma_elems_model_len(stack@);
                }
            },
            XmlToken::End(name) => {
                if stack.len() <= 1 {
                    let e = ParseError::UnmatchedClose { found: name.clone() };
                    proof {
                        lemma_whole_run_err(tm, i as int, e@);
                    }
                    return Err(e);
                }
                let cur = stack.pop().unwrap();
                let ghost cur_model = cur@;
                proof {
                    crate::schema::lemma_elems_model_index(head_stack, head_stack.len() - 1);
                    assert(pre_stack[pre_stack.len() - 1] == cur_model);
                }
                if !(cur.name == *name) {
                    let e = ParseError::MismatchedClose {
                        expected: cur.name,
                        found: name.clone(),
                    };
                    proof {
                        lemma_whole_run_err(tm, i as int, e@);
                    }
                    return Err(e);
                }
                let mut parent = stack.pop().unwrap();
                let ghost snap = stack@;
                let ghost parent_model = parent@;
                proof {
                    crate::schema::lemma_elems_model_index(head_stack, head_stack.len() - 2);
                    assert(head_stack.subrange(0, head_stack.len() - 1).subrange(
                        0,
                        head_stack.len() - 2,
                    ) =~= head_stack.subrange(0, head_stack.len() - 2));
                    assert(pre_stack[pre_stack.len() - 2] == parent_model);
                }
                if cur.elements.len() == 0 && cur.items.len() == 0 {
                    let demoted = Item {
                        name: cur.name,
                        value_type: cur.value_type,
                        attributes: cur.attributes,
                    };
                    let ghost pitems = parent.items@;
                    parent.items.push(demoted);
                    proof {
                        assert(cur_model.elements.len() == 0 && cur_model.items.len() == 0) by {
                            crate::schema::lemma_elems_model_len(cur.elements@);
                        }
                        assert(items_model(parent.items@) =~= items_model(pitems).push(
                            demoted_item(cur_model),
                        ));
                        assert(parent@ =~= ElemModel {
                            items: parent_model.items.push(demoted_item(cur_model)),
                            ..parent_model
                        });
                    }
                } else {
                    let ghost pelems = parent.elements@;
                    let ghost cur_snap = cur;
                    parent.elements.push(cur);
                    proof {
                        assert(!(cur_model.elements.len() == 0 && cur_model.items.len() == 0)) by {
                            crate::schema::lemma_elems_model_len(cur_snap.elements@);
                        }
                        crate::schema::lemma_elems_model_push(pelems, cur_snap);
                        assert(parent@ =~= ElemModel {
                            elements: parent_model.elements.push(cur_model),
                            ..parent_model
                        });
                    }
                }
                let ghost parent2_model = parent@;
                stack.push(parent);
                proof {
                    crate::schema::lemma_elems_model_push(snap, stack@[stack@.len() - 1]);
                    crate::schema::lemma_elems_model_subrange(head_stack, 0, head_stack.len() - 2);
                    assert(elems_model(snap) =~= pre_stack.subrange(0, pre_stack.len() - 2));
                    assert(elems_model(stack@) =~= pre_stack.subrange(0, pre_stack.len() - 2).push(
                        parent2_model,
                    ));
                    crate::schema::lemma_elems_model_len(stack@);
                }
            },
        }
        i += 1;
    }
    proof {
        assert(tm.subrange(0, tm.len() as int) =~= tm);
    }
    if stack.len() == 1 {
        let ghost end_stack = stack@;
        let root = stack.pop().unwrap();
        proof {
            crate::schema::lemma_elems_model_index(end_stack, 0);
            assert(spec_run(tm)->Ok_0[0] == root@);
        }
        Ok(root)
    } else {
        let ghost st = elems_model(stack@);
        let mut open: Vec<String> = Vec::new();
        let mut k: usize = 1;
        proof {
            assert(st.subrange(1, 1) =~= Seq::<ElemModel>::empty());
            assert(names_model(open@) =~= open_names_upto(st, 1));
        }
        while k < stack.len()
            invariant
                1 <= k <= stack@.len(),
                st == elems_model(stack@),
                st.len() == stack@.len(),
                names_model(open@) == open_names_upto(st, k as int),
            decreases stack@.len() - k,
        {
            let ghost pre = open@;
            proof {
                crate::schema::lemma_elems_model_index(stack@, k as int);
            }
            open.push(stack[k].name.clone());
            proof {
                assert(names_model(open@) =~= names_model(pre).push(st[k as int].name));
                assert(st.subrange(1, k + 1) =~= st.subrange(1, k as int).push(st[k as int]));
                assert(names_model(open@) =~= open_names_upto(st, k + 1));
            }
            k += 1;
        }
        proof {
            assert(names_model(open@) == open_names(st));
        }
        Err(ParseError::Unclosed { open })
    }
}

/// The names of the open user elements among the first `k` stack entries.
pub open spec fn open_names_upto(stack: Seq<ElemModel>, k: int) -> Seq<Seq<char>> {
    stack.subrange(1, k).map_values(|e: ElemModel| e.name)
}

} // verus!
