//! Case and compatibility folding of names, for matching that ignores case,
//! accent composition and compatibility variants.

use vstd::prelude::*;

verus! {

/// The compatibility decomposition (Unicode Normalization Form KD) of `s`.
pub uninterp spec fn nfkd_of(s: Seq<char>) -> Seq<char>;

/// The lowercase form of `s`.
pub uninterp spec fn lowercase_of(s: Seq<char>) -> Seq<char>;

/// Calls `unicode_normalization::UnicodeNormalization::nfkd` on `s` and
/// collects what the iterator yields. The decomposition is computed from the
/// characters of `s` and the crate's tables alone; the contract gives that
/// result its name and claims nothing else of it.
#[verifier::external_body]
fn nfkd(s: &str) -> (decomposed: String)
    ensures
        decomposed@ == nfkd_of(s@),
{
    unicode_normalization::UnicodeNormalization::nfkd(s).collect::<String>()
}

/// Calls `str::to_lowercase` on `s`. The lowercase form is computed from the
/// characters of `s` alone; the contract gives that result its name and
/// claims nothing else of it.
#[verifier::external_body]
fn lowercase(s: &str) -> (lowered: String)
    ensures
        lowered@ == lowercase_of(s@),
{
    s.to_lowercase()
}

/// The form of `s` under which names are compared: decomposed, then lowercased.
pub open spec fn folded(s: Seq<char>) -> Seq<char> {
    lowercase_of(nfkd_of(s))
}

/// The form of `s` under which names are compared.
pub fn fold(s: &str) -> (key: String)
    ensures
        key@ == folded(s@),
{
    let decomposed = nfkd(s);
    lowercase(decomposed.as_str())
}

} // verus!
