//! The identity type: immutable text compared through its Unicode case
//! folding and measured in grapheme clusters.

use unicase::UniCase;
use unicode_segmentation::UnicodeSegmentation;
use vstd::prelude::*;

verus! {

/// The Unicode case folding of a text (each character mapped to its
/// CaseFolding equivalent).
pub uninterp spec fn folded_case(s: Seq<char>) -> Seq<char>;

/// The extended grapheme clusters of a text, left to right.
pub uninterp spec fn graphemes_of(s: Seq<char>) -> Seq<Seq<char>>;

/// Relies on `unicase::UniCase::to_folded_case`: the case folding of the text,
/// which depends on its characters alone; each character folds to one to
/// three characters (`unicode::map::lookup` never yields `Fold::Zero`).
#[verifier::external_body]
pub(crate) fn fold_case(s: &str) -> (r: String)
    ensures
        r@ == folded_case(s@),
        s@.len() == 0 ==> r@.len() == 0,
        s@.len() <= r@.len(),
{
    UniCase::new(s).to_folded_case()
}

/// Relies on `UnicodeSegmentation::graphemes(s, true)`: the extended grapheme
/// clusters of the text, in order; each is non-empty (`Graphemes::next` ends
/// at the next boundary after its start).
#[verifier::external_body]
pub(crate) fn split_graphemes(s: &str) -> (r: Vec<String>)
    ensures
        string_views(r@) == graphemes_of(s@),
        forall|i: int| 0 <= i < r@.len() ==> (#[trigger] r@[i])@.len() > 0,
{
    s.graphemes(true).map(|g| g.to_string()).collect()
}

/// Relies on `String::push`: appends one character.
#[verifier::external_body]
pub(crate) fn push_char(s: &mut String, c: char)
    ensures
        final(s)@ == old(s)@.push(c),
{
    s.push(c);
}

/// The character sequences of a list of strings.
pub open spec fn string_views(v: Seq<String>) -> Seq<Seq<char>> {
    v.map_values(|s: String| s@)
}

/// Two texts name the same identity when their case foldings agree.
pub open spec fn same_identity(a: Seq<char>, b: Seq<char>) -> bool {
    folded_case(a) == folded_case(b)
}

/// Concatenation of a run of grapheme clusters.
pub open spec fn concat(gs: Seq<Seq<char>>) -> Seq<char>
    decreases gs.len(),
{
    if gs.len() == 0 {
        Seq::empty()
    } else {
        concat(gs.drop_last()) + gs.last()
    }
}

/// A run of at least one non-empty cluster is non-empty.
pub proof fn lemma_concat_nonempty(gs: Seq<Seq<char>>)
    requires
        gs.len() > 0,
        gs.last().len() > 0,
    ensures
        concat(gs).len() > 0,
{
}

/// The text of the `n` clusters that start at cluster `start`.
pub open spec fn window(gs: Seq<Seq<char>>, start: int, n: int) -> Seq<char> {
    concat(gs.subrange(start, start + n))
}

/// Every run of `n` consecutive clusters, left to right; none for `n == 0`
/// or for `n` beyond the number of clusters.
pub open spec fn windows(gs: Seq<Seq<char>>, n: int) -> Seq<Seq<char>> {
    if 1 <= n <= gs.len() {
        Seq::new((gs.len() - n + 1) as nat, |i: int| window(gs, i, n))
    } else {
        Seq::empty()
    }
}

/// Number of grapheme clusters of a text.
pub open spec fn grapheme_count(s: Seq<char>) -> nat {
    graphemes_of(s).len()
}

/// Joins the clusters `gs[start..end]` into one string.
pub(crate) fn join_range(gs: &Vec<String>, start: usize, end: usize) -> (r: String)
    requires
        start <= end <= gs.len(),
    ensures
        r@ == concat(string_views(gs@).subrange(start as int, end as int)),
{
    let mut r = String::new();
    let mut k: usize = start;
    while k < end
        invariant
            start <= k <= end <= gs.len(),
            r@ == concat(string_views(gs@).subrange(start as int, k as int)),
        decreases end - k,
    {
        r.append(gs[k].as_str());
        let ghost views = string_views(gs@);
        assert(views.subrange(start as int, k + 1).drop_last() =~= views.subrange(
            start as int,
            k as int,
        ));
        k = k + 1;
    }
    r
}

/// The requested range runs past the end of the text.
#[derive(Debug, Clone, Copy, PartialEq, Eq)]
pub struct OutOfRange;

/// Immutable application name or query; equality goes through case folding.
#[derive(Debug, Clone)]
pub struct AppString {
    text: String,
}

/// A grapheme-aligned part of an [`AppString`].
#[derive(Debug, Clone)]
pub struct AppSubstr {
    text: String,
}

impl View for AppString {
    type V = Seq<char>;

    closed spec fn view(&self) -> Seq<char> {
        self.text@
    }
}

impl View for AppSubstr {
    type V = Seq<char>;

    closed spec fn view(&self) -> Seq<char> {
        self.text@
    }
}

impl AppString {
    pub fn new(s: &str) -> (r: AppString)
        ensures
            r@ == s@,
    {
        let r = AppString { text: s.to_owned() };
        proof {
            assert(r@ == s@);
        }
        r
    }

    pub fn from_string(text: String) -> (r: AppString)
        ensures
            r@ == text@,
    {
        AppString { text }
    }

    pub fn as_str(&self) -> (r: &str)
        ensures
            r@ == self@,
    {
        self.text.as_str()
    }

    /// The text as an owned string.
    pub fn text(&self) -> (r: String)
        ensures
            r@ == self@,
    {
        self.text.clone()
    }

    /// Exact (case-sensitive) comparison with a string.
    pub fn text_equals(&self, s: &String) -> (r: bool)
        ensures
            r == (self@ == s@),
    {
        self.text == *s
    }

    /// Copy of the text.
    pub fn duplicate(&self) -> (r: AppString)
        ensures
            r@ == self@,
    {
        AppString { text: self.text.clone() }
    }

    /// Number of user-perceived characters.
    pub fn grapheme_len(&self) -> (r: usize)
        ensures
            r == grapheme_count(self@),
    {
        split_graphemes(self.text.as_str()).len()
    }

    /// The `len` grapheme clusters that start at cluster `start`.
    pub fn substring(&self, start: usize, len: usize) -> (r: Result<AppSubstr, OutOfRange>)
        ensures
            start + len <= grapheme_count(self@) <==> r is Ok,
            r matches Ok(sub) ==> sub@ == window(
                graphemes_of(self@),
                start as int,
                len as int,
            ),
    {
        let gs = split_graphemes(self.text.as_str());
        if start > gs.len() || len > gs.len() - start {
            return Err(OutOfRange);
        }
        let text = join_range(&gs, start, start + len);
        Ok(AppSubstr { text })
    }

    /// The case folding of the text.
    pub fn folded(&self) -> (r: String)
        ensures
            r@ == folded_case(self@),
    {
        fold_case(self.text.as_str())
    }

    /// Case-insensitive comparison with a string.
    pub fn identity_equals(&self, s: &String) -> (r: bool)
        ensures
            r == same_identity(self@, s@),
    {
        let a = fold_case(self.text.as_str());
        let b = fold_case(s.as_str());
        a == b
    }

    /// Case-insensitive equality.
    pub fn eq_ignore_case(&self, other: &AppString) -> (r: bool)
        ensures
            r == same_identity(self@, other@),
    {
        let a = fold_case(self.text.as_str());
        let b = fold_case(other.text.as_str());
        a == b
    }
}

impl AppSubstr {
    pub fn new(s: &str) -> (r: AppSubstr)
        ensures
            r@ == s@,
    {
        AppSubstr { text: s.to_owned() }
    }

    pub fn as_str(&self) -> (r: &str)
        ensures
            r@ == self@,
    {
        self.text.as_str()
    }

    /// Case-insensitive equality.
    pub fn eq_ignore_case(&self, other: &AppSubstr) -> (r: bool)
        ensures
            r == same_identity(self@, other@),
    {
        let a = fold_case(self.text.as_str());
        let b = fold_case(other.text.as_str());
        a == b
    }
}

impl PartialEq for AppString {
    fn eq(&self, other: &AppString) -> (r: bool) {
        self.eq_ignore_case(other)
    }
}

impl vstd::std_specs::cmp::PartialEqSpecImpl for AppString {
    open spec fn obeys_eq_spec() -> bool {
        true
    }

    open spec fn eq_spec(&self, other: &AppString) -> bool {
        same_identity(self@, other@)
    }
}

impl Eq for AppString {
}

impl PartialEq for AppSubstr {
    fn eq(&self, other: &AppSubstr) -> (r: bool) {
        self.eq_ignore_case(other)
    }
}

impl vstd::std_specs::cmp::PartialEqSpecImpl for AppSubstr {
    open spec fn obeys_eq_spec() -> bool {
        true
    }

    open spec fn eq_spec(&self, other: &AppSubstr) -> bool {
        same_identity(self@, other@)
    }
}

impl Eq for AppSubstr {
}

} // verus!
