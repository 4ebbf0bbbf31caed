//! The version value: the text it was made from and its canonical triple.

use crate::date::standardized_raw;
use crate::decimal::{digits_value, render_number};
use crate::dotted::{
    is_triple_text, join3, lemma_split_join3, lemma_triple_text_reads_back,
    lemma_triple_text_shape, parse_triple, read_triple, triple_text,
};
use vstd::prelude::*;

verus! {

/// The text that stands for a version from which nothing could be recovered.
pub const DEFAULT: &'static str = "1.0.0";

/// The triple that stands for a version from which nothing could be
/// recovered: what [`DEFAULT`] denotes.
pub const DEFAULT_TRIPLE: (u32, u32, u32) = (1, 0, 0);

/// The triple that a standardized text resolves to: the one it denotes, or
/// the default where it denotes none (a part that is no run of ASCII digits,
/// or one too large for 32 bits).
pub open spec fn resolved(standardized: Seq<char>) -> (u32, u32, u32) {
    match parse_triple(standardized) {
        Some(triple) => triple,
        None => DEFAULT_TRIPLE,
    }
}

/// A component raised by one, held at the largest value once it is reached.
pub open spec fn raised(n: u32) -> u32 {
    if n < u32::MAX {
        (n + 1) as u32
    } else {
        n
    }
}

/// What a version is, as plain values.
pub struct VersionView {
    /// The text the version was made from, verbatim.
    pub original: Seq<char>,
    /// `(major, minor, patch)`.
    pub triple: (u32, u32, u32),
}

/// A version in canonical form, together with the text it was made from.
#[derive(Clone)]
pub struct ComposerVersion {
    original: String,
    major: u32,
    minor: u32,
    patch: u32,
}

impl View for ComposerVersion {
    type V = VersionView;

    closed spec fn view(&self) -> VersionView {
        VersionView { original: self.original@, triple: (self.major, self.minor, self.patch) }
    }
}

impl ComposerVersion {
    /// Makes a version from any text. The text is standardized and the
    /// outcome resolved into a triple; a text from which no version can be
    /// recovered gives the default triple. The text itself is kept verbatim.
    pub fn new(original: &str) -> (version: ComposerVersion)
        ensures
            version@.original == original@,
            version@.triple == resolved(standardized_raw(original@)),
    {
        let standardized = ComposerVersion::standardize(original);
        let (major, minor, patch) = ComposerVersion::resolve(standardized.as_str());
        ComposerVersion { original: String::from_str(original), major, minor, patch }
    }

    /// Resolves a standardized text into its triple, falling back to the
    /// default triple where the text denotes none.
    pub fn resolve(standardized: &str) -> (triple: (u32, u32, u32))
        ensures
            triple == resolved(standardized@),
    {
        match read_triple(standardized) {
            Some(triple) => triple,
            None => DEFAULT_TRIPLE,
        }
    }

    /// The text this version was made from, verbatim.
    pub fn get_original(&self) -> (text: String)
        ensures
            text@ == self@.original,
    {
        self.original.clone()
    }

    /// Raises the major component by one and resets minor and patch to zero.
    /// A major component that is already the largest 32-bit value stays.
    pub fn bump_major(&mut self)
        ensures
            final(self)@.original == old(self)@.original,
            final(self)@.triple == (raised(old(self)@.triple.0), 0u32, 0u32),
            old(self)@.triple.0 < u32::MAX ==> final(self)@.triple.0 > old(self)@.triple.0,
    {
        self.major = self.major.saturating_add(1);
        self.minor = 0;
        self.patch = 0;
    }

    /// Raises the minor component by one and resets patch to zero; major is
    /// kept. A minor component that is already the largest 32-bit value stays.
    pub fn bump_minor(&mut self)
        ensures
            final(self)@.original == old(self)@.original,
            final(self)@.triple == (old(self)@.triple.0, raised(old(self)@.triple.1), 0u32),
            old(self)@.triple.1 < u32::MAX ==> final(self)@.triple.1 > old(self)@.triple.1,
    {
        self.minor = self.minor.saturating_add(1);
        self.patch = 0;
    }

    /// Raises the patch component by one; major and minor are kept. A patch
    /// component that is already the largest 32-bit value stays.
    pub fn bump_patch(&mut self)
        ensures
            final(self)@.original == old(self)@.original,
            final(self)@.triple == (
                old(self)@.triple.0,
                old(self)@.triple.1,
                raised(old(self)@.triple.2),
            ),
            old(self)@.triple.2 < u32::MAX ==> final(self)@.triple.2 > old(self)@.triple.2,
    {
        self.patch = self.patch.saturating_add(1);
    }

    /// Renders the triple as `major.minor.patch`, in decimal and without
    /// leading zeros.
    pub fn to_string(&self) -> (text: String)
        ensures
            text@ == triple_text(self@.triple),
            is_triple_text(text@),
    {
        let mut text = render_number(self.major);
        text.append(".");
        text.append(render_number(self.minor).as_str());
        text.append(".");
        text.append(render_number(self.patch).as_str());
        proof {
            reveal_strlit(".");
            assert("."@ =~= seq!['.']);
            lemma_triple_text_shape(self@.triple);
        }
        text
    }
}

/// Law: the default text denotes the default triple.
pub proof fn lemma_default_resolves()
    ensures
        parse_triple(DEFAULT@) == Some(DEFAULT_TRIPLE),
        resolved(DEFAULT@) == DEFAULT_TRIPLE,
{
    reveal_strlit("1.0.0");
    let one = seq!['1'];
    let zero = seq!['0'];
    assert(DEFAULT@ =~= join3(one, zero, zero));
    lemma_split_join3(one, zero, zero);
    assert(one.drop_last() =~= Seq::<char>::empty());
    assert(zero.drop_last() =~= Seq::<char>::empty());
    assert(digits_value(one) == 1) by {
        assert(digits_value(one.drop_last()) == 0);
    }
    assert(digits_value(zero) == 0) by {
        assert(digits_value(zero.drop_last()) == 0);
    }
}

/// Law: whatever text a version is made from, its rendering is a run of
/// digits, a dot, a run of digits, a dot and a run of digits.
pub proof fn lemma_rendering_shape(original: Seq<char>)
    ensures
        is_triple_text(triple_text(resolved(standardized_raw(original)))),
{
    lemma_triple_text_shape(resolved(standardized_raw(original)));
}

/// Law: the rendering of a triple resolves to that triple.
pub proof fn lemma_rendering_resolves(triple: (u32, u32, u32))
    ensures
        resolved(triple_text(triple)) == triple,
{
    lemma_triple_text_reads_back(triple);
}

/// Law: making a version from the rendering of a version gives the same
/// triple again, wherever standardizing leaves that rendering as it is.
pub proof fn lemma_kept_rendering_is_fixed(original: Seq<char>)
    ensures
        ({
            let rendering = triple_text(resolved(standardized_raw(original)));
            standardized_raw(rendering) == rendering ==> resolved(standardized_raw(rendering))
                == resolved(standardized_raw(original))
        }),
{
    lemma_triple_text_reads_back(resolved(standardized_raw(original)));
}

} // verus!
