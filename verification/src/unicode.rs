//! Unicode normalisation and case folding, and the keys made with them.

use crate::split::{join, split_words};
use crate::text::{joined, words};
use unicode_normalization::UnicodeNormalization;
use vstd::prelude::*;

verus! {

/// The canonical decomposition (form D) of a text.
pub uninterp spec fn nfd_text(s: Seq<char>) -> Seq<char>;

/// The compatibility decomposition (form KD) of a text.
pub uninterp spec fn nfkd_text(s: Seq<char>) -> Seq<char>;

/// The default case folding of a text.
pub uninterp spec fn folded_text(s: Seq<char>) -> Seq<char>;

/// `UnicodeNormalization::nfd` of `unicode_normalization`: the text in
/// Normalization Form D, which depends on the text alone.
#[verifier::external_body]
fn nfd(s: &str) -> (r: String)
    ensures
        r@ == nfd_text(s@),
{
    s.nfd().collect()
}

/// `UnicodeNormalization::nfkd` of `unicode_normalization`: the text in
/// Normalization Form KD, which depends on the text alone.
#[verifier::external_body]
fn nfkd(s: &str) -> (r: String)
    ensures
        r@ == nfkd_text(s@),
{
    s.nfkd().collect()
}

/// `caseless::default_case_fold_str`: the default case folding of the text,
/// which depends on the text alone.
#[verifier::external_body]
fn case_fold(s: &str) -> (r: String)
    ensures
        r@ == folded_text(s@),
{
    caseless::default_case_fold_str(s)
}

/// The capitals of a text.
pub uninterp spec fn capital_text(s: Seq<char>) -> Seq<char>;

/// `str::to_uppercase` of std: the text with every letter as its capital or
/// capitals, which depends on the text alone.
#[verifier::external_body]
pub(crate) fn to_capitals(s: &str) -> (r: String)
    ensures
        r@ == capital_text(s@),
{
    s.to_uppercase()
}

/// A text in quotation marks, with what cannot stand there escaped.
pub uninterp spec fn quoted_text(s: Seq<char>) -> Seq<char>;

/// The `Debug` form that std gives a `str`: the text in quotation marks, with
/// what cannot stand there escaped. It depends on the text alone.
#[verifier::external_body]
pub(crate) fn quoted(s: &str) -> (r: String)
    ensures
        r@ == quoted_text(s@),
{
    format!("{:?}", s)
}

/// The key under which a path is one and the same file, however it is cased
/// and composed: form D of the folded form D.
pub open spec fn canonical(s: Seq<char>) -> Seq<char> {
    nfd_text(folded_text(nfd_text(s)))
}

/// The key of a path (see [`canonical`]).
pub fn canonical_key(path: &str) -> (r: String)
    ensures
        r@ == canonical(path@),
{
    let decomposed = nfd(path);
    let folded = case_fold(&decomposed);
    nfd(&folded)
}

/// `s` with each run of white space as one space, and none around it.
pub open spec fn collapsed(s: Seq<char>) -> Seq<char> {
    joined(words(s), seq![' '])
}

/// `s` with each run of white space as one space, and none around it.
pub fn collapse_white(s: &str) -> (r: String)
    ensures
        r@ == collapsed(s@),
{
    proof {
        reveal_strlit(" ");
        assert(" "@ =~= seq![' ']);
    }
    join(&split_words(s), " ")
}

/// The key under which two titles count as the same: form KD, case folded, with
/// white space collapsed. Annotations stay, so a cover or a live version keeps
/// a key of its own.
pub open spec fn title_key_of(s: Seq<char>) -> Seq<char> {
    nfkd_text(collapsed(folded_text(nfkd_text(s))))
}

/// The key of a title (see [`title_key_of`]).
pub fn title_key(title: &str) -> (r: String)
    ensures
        r@ == title_key_of(title@),
{
    let decomposed = nfkd(title);
    let folded = case_fold(&decomposed);
    let out = collapse_white(&folded);
    nfkd(&out)
}

} // verus!
