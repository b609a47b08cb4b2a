//! Infers a typed schema from an example XML document and renders it as
//! nested, serde-ready Rust type declarations.
//!
//! The pipeline: tokenize the document, fold the event stream into a tree of
//! structural elements and leaf items, unify repeated siblings (promoting
//! fields that are missing on one side to optional), and emit one text block
//! of type declarations.

pub mod builder;
pub mod classify;
pub mod emit;
pub mod kinds;
pub mod schema;
pub mod tokenize;

use vstd::prelude::*;

verus! {

use crate::builder::{
    ParseError, ParseErrorModel, TokenModel, XmlToken, build_tree, spec_build, tokens_model,
};
use crate::emit::spec_emit;
use crate::schema::{ElemModel, lemma_elems_model_index, lemma_elems_model_len};
use crate::tokenize::tokenize;

/// Builds the schema tree from the tokens and renders the first structural
/// element under the synthetic root. Fails exactly on the malformed
/// shapes — an unmatched or mismatched closing tag, elements left open at
/// end of stream — and on a document whose root carries no structural
/// element.
pub fn parse_tokens(tokens: &Vec<XmlToken>) -> (r: Result<String, ParseError>)
    ensures
        match r {
            Ok(s) => spec_build(tokens_model(tokens@)) is Ok && spec_build(
                tokens_model(tokens@),
            )->Ok_0.elements.len() > 0 && s@ == spec_emit(
                spec_build(tokens_model(tokens@))->Ok_0.elements[0],
            ),
            Err(e) => {
                ||| spec_build(tokens_model(tokens@)) == Err::<ElemModel, ParseErrorModel>(e@)
                ||| (spec_build(tokens_model(tokens@)) is Ok && spec_build(
                    tokens_model(tokens@),
                )->Ok_0.elements.len() == 0 && e@ == ParseErrorModel::NoRootElement)
            },
        },
{
    match build_tree(tokens) {
        Ok(root) => {
            proof {
                lemma_elems_model_len(root.elements@);
            }
            if root.elements.len() == 0 {
                Err(ParseError::NoRootElement)
            } else {
                proof {
                    lemma_elems_model_index(root.elements@, 0);
                }
                Ok(root.elements[0].as_serde())
            }
        },
        Err(e) => Err(e),
    }
}

/// Tokenizes a whole document and parses it. The token stream comes from
/// the external tokenizer, so success cannot be promised; but whatever
/// stream came back, the result is exactly what the tree builder and the
/// emitter determine for it: some token stream builds and renders to the
/// returned text, or fails with the returned error.
pub fn parse_xml_file(xml: &str) -> (r: Result<String, ParseError>)
    ensures
        exists|toks: Seq<TokenModel>|
            #![trigger spec_build(toks)]
            match r {
                Ok(s) => spec_build(toks) is Ok && spec_build(toks)->Ok_0.elements.len() > 0
                    && s@ == spec_emit(spec_build(toks)->Ok_0.elements[0]),
                Err(e) => spec_build(toks) == Err::<ElemModel, ParseErrorModel>(e@) || (
                spec_build(toks) is Ok && spec_build(toks)->Ok_0.elements.len() == 0 && e@
                    == ParseErrorModel::NoRootElement),
            },
{
    let tokens = tokenize(xml);
    let r = parse_tokens(&tokens);
    proof {
        let toks = tokens_model(tokens@);
        assert(match r {
            Ok(s) => spec_build(toks) is Ok && spec_build(toks)->Ok_0.elements.len() > 0 && s@
                == spec_emit(spec_build(toks)->Ok_0.elements[0]),
            Err(e) => spec_build(toks) == Err::<ElemModel, ParseErrorModel>(e@) || (
            spec_build(toks) is Ok && spec_build(toks)->Ok_0.elements.len() == 0 && e@
                == ParseErrorModel::NoRootElement),
        });
    }
    r
}

} // verus!
