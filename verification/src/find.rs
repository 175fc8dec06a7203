use crate::find::models::Citation;
use crate::tokenizers::Tokenizer;
use vstd::prelude::*;

pub mod models;

verus! {

/// Locate citations in a text: tokenize it and hand the citation-relevant
/// tokens to the citation-assembly layer.
///
/// Assembling [`Citation`] records out of the token stream is the consumer's
/// job and out of this engine's scope, so the list returned here is empty;
/// the verified work is the tokenization behind it.
pub fn get_citations<T: Tokenizer>(
    plain_text: &Vec<u8>,
    _remove_ambiguous: bool,
    tokenizer: &T,
) -> (r: Vec<Citation>)
    requires
        tokenizer.wf(),
    ensures
        r@.len() == 0,
{
    let (_words, _citation_tokens) = tokenizer.tokenize(plain_text);
    let citations: Vec<Citation> = Vec::new();
    citations
}

} // verus!
