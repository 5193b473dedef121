use vstd::prelude::*;
use std::sync::Arc;
use std::time::Instant;
use unicode_segmentation::UnicodeSegmentation;

verus! {

// ---------------------------------------------------------------------------
// Trusted boundary: grapheme segmentation, case folding and the clock.
// ---------------------------------------------------------------------------

/// The grapheme clusters of a string, as sequences of characters.
pub uninterp spec fn graphemes_of(s: Seq<char>) -> Seq<Seq<char>>;

/// The lowercase folding of a string's characters.
pub uninterp spec fn lower_of(s: Seq<char>) -> Seq<char>;

/// Relies on unicode_segmentation's `graphemes` iterator: the grapheme
/// clusters of a string are a function of its characters alone, they are
/// non-empty substrings that cover the string in order, so a string has no
/// clusters exactly when it has no characters.
#[verifier::external_body]
pub(crate) fn segment_graphemes(s: &str) -> (r: Vec<String>)
    ensures
        r.deep_view() == graphemes_of(s@),
        r@.len() <= s@.len(),
        r@.len() == 0 <==> s@.len() == 0,
{
    s.graphemes(true).map(String::from).collect()
}

/// Relies on `str::to_lowercase`: the folded form of a string depends on its
/// characters alone, and an empty string folds to an empty string.
#[verifier::external_body]
pub(crate) fn fold_lowercase(s: &str) -> (r: String)
    ensures
        r@ == lower_of(s@),
        s@.len() == 0 ==> r@.len() == 0,
{
    s.to_lowercase()
}

/// Relies on `std::time::Instant::now`: an opaque reading of the monotonic
/// clock, about which nothing is promised.
#[verifier::external_body]
fn instant_now() -> Instant {
    Instant::now()
}

/// Relies on `String`'s `FromIterator<char>`: collecting characters yields
/// the string made of exactly those characters in order.
#[verifier::external_body]
fn chars_to_string(chars: &Vec<char>) -> (r: String)
    ensures
        r@ == chars@,
{
    chars.iter().collect()
}

#[verifier::external_type_specification]
#[verifier::external_body]
pub struct ExInstant(Instant);

/// Relies on Clone for std::time::Instant, which copies the value.
pub assume_specification[ <Instant as Clone>::clone ](v: &Instant) -> (r: Instant)
    ensures
        r == *v,
;

// ---------------------------------------------------------------------------
// SearchBox: the typed query together with an editing cursor.
// ---------------------------------------------------------------------------

/// The interactive query line: the typed characters, a cursor inside them and
/// the moment of the last refresh.
#[derive(Debug, Clone)]
pub struct SearchBox {
    query: Vec<char>,
    cursor: usize,
    timestamp: Instant,
}

impl SearchBox {
    /// The cursor never leaves the typed text.
    pub closed spec fn wf(&self) -> bool {
        self.cursor <= self.query@.len()
    }

    pub closed spec fn spec_query(&self) -> Seq<char> {
        self.query@
    }

    pub closed spec fn spec_cursor(&self) -> int {
        self.cursor as int
    }

    pub closed spec fn spec_timestamp(&self) -> Instant {
        self.timestamp
    }

    /// Starts with no text and the cursor at the origin.
    pub fn new() -> (sb: SearchBox)
        ensures
            sb.wf(),
            sb.spec_query() == Seq::<char>::empty(),
            sb.spec_cursor() == 0,
    {
        SearchBox { query: Vec::new(), cursor: 0, timestamp: instant_now() }
    }

    /// Builds a box holding the given text, with the cursor at its end.
    pub fn from_string(string: &String) -> (sb: SearchBox)
        ensures
            sb.wf(),
            sb.spec_query() == string@,
            sb.spec_cursor() == string@.len(),
    {
        let mut query: Vec<char> = Vec::new();
        let text = string.as_str();
        let n = text.unicode_len();
        let mut i: usize = 0;
        while i < n
            invariant
                i <= n,
                n == text@.len(),
                text@ == string@,
                query@ == string@.subrange(0, i as int),
            decreases n - i,
        {
            let ch = text.get_char(i);
            query.push(ch);
            i += 1;
            proof {
                assert(query@ =~= string@.subrange(0, i as int));
            }
        }
        proof {
            assert(query@ =~= string@);
        }
        let cursor = query.len();
        SearchBox { query, cursor, timestamp: instant_now() }
    }

    /// Inserts a character at the cursor and moves the cursor past it.
    pub fn add(&mut self, ch: char)
        requires
            old(self).wf(),
            old(self).spec_query().len() < usize::MAX,
        ensures
            final(self).wf(),
            final(self).spec_query() == old(self).spec_query().insert(
                old(self).spec_cursor(),
                ch,
            ),
            final(self).spec_cursor() == old(self).spec_cursor() + 1,
            final(self).spec_timestamp() == old(self).spec_timestamp(),
    {
        self.query.insert(self.cursor, ch);
        self.cursor += 1;
    }

    /// Removes the character before the cursor, if there is one.
    pub fn backspace(&mut self)
        requires
            old(self).wf(),
        ensures
            final(self).wf(),
            old(self).spec_cursor() == 0 ==> *final(self) == *old(self),
            old(self).spec_cursor() > 0 ==> {
                &&& final(self).spec_query() == old(self).spec_query().remove(
                    old(self).spec_cursor() - 1,
                )
                &&& final(self).spec_cursor() == old(self).spec_cursor() - 1
            },
            final(self).spec_timestamp() == old(self).spec_timestamp(),
    {
        if self.cursor > 0 {
            self.cursor -= 1;
            self.query.remove(self.cursor);
        }
    }

    /// Drops all text and rewinds the cursor.
    pub fn clear(&mut self)
        ensures
            final(self).wf(),
            final(self).spec_query() == Seq::<char>::empty(),
            final(self).spec_cursor() == 0,
            final(self).spec_timestamp() == old(self).spec_timestamp(),
    {
        self.query.clear();
        self.cursor = 0;
    }

    /// Moves the cursor one place towards the start, stopping there.
    pub fn left(&mut self)
        requires
            old(self).wf(),
        ensures
            final(self).wf(),
            final(self).spec_query() == old(self).spec_query(),
            final(self).spec_cursor() == if old(self).spec_cursor() > 0 {
                old(self).spec_cursor() - 1
            } else {
                0
            },
            final(self).spec_timestamp() == old(self).spec_timestamp(),
    {
        if self.cursor > 0 {
            self.cursor -= 1;
        }
    }

    /// Moves the cursor one place towards the end, stopping there.
    pub fn right(&mut self)
        requires
            old(self).wf(),
        ensures
            final(self).wf(),
            final(self).spec_query() == old(self).spec_query(),
            final(self).spec_cursor() == if old(self).spec_cursor()
                < old(self).spec_query().len() {
                old(self).spec_cursor() + 1
            } else {
                old(self).spec_cursor()
            },
            final(self).spec_timestamp() == old(self).spec_timestamp(),
    {
        if self.cursor < self.len() {
            self.cursor += 1;
        }
    }

    /// Puts the cursor after the last character.
    pub fn to_end(&mut self)
        ensures
            final(self).wf(),
            final(self).spec_query() == old(self).spec_query(),
            final(self).spec_cursor() == old(self).spec_query().len(),
            final(self).spec_timestamp() == old(self).spec_timestamp(),
    {
        self.cursor = self.len();
    }

    /// Puts the cursor before the first character.
    pub fn to_start(&mut self)
        ensures
            final(self).wf(),
            final(self).spec_query() == old(self).spec_query(),
            final(self).spec_cursor() == 0,
            final(self).spec_timestamp() == old(self).spec_timestamp(),
    {
        self.cursor = 0;
    }

    /// How many characters stand between the cursor and the end.
    pub fn cursor_until_end(&self) -> (r: usize)
        requires
            self.wf(),
        ensures
            r == self.spec_query().len() - self.spec_cursor(),
    {
        if self.len() < self.cursor {
            0
        } else {
            self.len() - self.cursor
        }
    }

    /// The typed text as one string.
    pub fn as_string(&self) -> (r: String)
        ensures
            r@ == self.spec_query(),
    {
        chars_to_string(&self.query)
    }

    /// The moment of the last refresh.
    pub fn timestamp(&self) -> (r: Instant)
        ensures
            r == self.spec_timestamp(),
    {
        self.timestamp
    }

    /// How many characters are typed.
    pub fn len(&self) -> (r: usize)
        ensures
            r == self.spec_query().len(),
    {
        self.query.len()
    }

    /// Remembers the present moment.
    pub fn refresh(&mut self)
        ensures
            final(self).spec_query() == old(self).spec_query(),
            final(self).spec_cursor() == old(self).spec_cursor(),
    {
        self.timestamp = instant_now();
    }
}

impl Default for SearchBox {
    /// The same empty box `new` builds.
    fn default() -> (sb: SearchBox)
        ensures
            sb.wf(),
            sb.spec_query() == Seq::<char>::empty(),
            sb.spec_cursor() == 0,
    {
        SearchBox::new()
    }
}

// ---------------------------------------------------------------------------
// Letters: a string segmented into graphemes, with a lowercase-folded view.
// ---------------------------------------------------------------------------

/// A string seen as a sequence of grapheme clusters, with a parallel
/// lowercase-folded sequence of the same length.
#[derive(Debug, Clone)]
pub struct Letters {
    string: String,
    graphemes: Vec<String>,
    graphemes_lw: Vec<String>,
}

impl Letters {
    /// The two grapheme sequences stay index-aligned, the folded one obtained
    /// grapheme by grapheme.
    pub closed spec fn wf(&self) -> bool {
        &&& self.graphemes.deep_view() == graphemes_of(self.string@)
        &&& self.graphemes_lw@.len() == self.graphemes@.len()
        &&& (self.graphemes@.len() == 0 <==> self.string@.len() == 0)
        &&& forall|i: int|
            0 <= i < self.graphemes@.len() ==> self.graphemes_lw@[i]@ == lower_of(
                #[trigger] self.graphemes@[i]@,
            )
    }

    pub closed spec fn spec_string(&self) -> Seq<char> {
        self.string@
    }

    pub closed spec fn spec_graphemes(&self) -> Seq<Seq<char>> {
        self.graphemes.deep_view()
    }

    pub closed spec fn spec_graphemes_lw(&self) -> Seq<Seq<char>> {
        self.graphemes_lw.deep_view()
    }

    /// The grapheme strings themselves, for speaking about iteration.
    pub closed spec fn spec_grapheme_strings(&self) -> Seq<String> {
        self.graphemes@
    }

    pub closed spec fn spec_grapheme_lw_strings(&self) -> Seq<String> {
        self.graphemes_lw@
    }

    /// Segments the string once and folds each grapheme once.
    pub fn new(string: String) -> (r: Letters)
        ensures
            r.wf(),
            r.spec_string() == string@,
            r.spec_graphemes().len() <= string@.len(),
            r.spec_graphemes().len() == 0 <==> string@.len() == 0,
    {
        let graphemes = segment_graphemes(string.as_str());
        let mut graphemes_lw: Vec<String> = Vec::new();
        let n = graphemes.len();
        let mut i: usize = 0;
        while i < n
            invariant
                i <= n,
                n == graphemes@.len(),
                graphemes_lw@.len() == i,
                forall|j: int|
                    0 <= j < i ==> graphemes_lw@[j]@ == lower_of(#[trigger] graphemes@[j]@),
            decreases n - i,
        {
            let folded = fold_lowercase(graphemes[i].as_str());
            graphemes_lw.push(folded);
            i += 1;
        }
        Letters { string, graphemes, graphemes_lw }
    }

    /// How many graphemes the string has.
    pub fn len(&self) -> (r: usize)
        ensures
            r == self.spec_graphemes().len(),
    {
        self.graphemes.len()
    }

    /// The index of the last grapheme, or zero when there is none.
    pub fn last_index(&self) -> (r: usize)
        ensures
            r == if self.spec_graphemes().len() == 0 {
                0int
            } else {
                self.spec_graphemes().len() - 1
            },
    {
        let len = self.len();
        if len == 0 {
            return 0;
        }
        len - 1
    }

    /// The grapheme at an index, in its original case.
    pub fn grapheme_at(&self, index: usize) -> (r: &str)
        requires
            index < self.spec_graphemes().len(),
        ensures
            r@ == self.spec_graphemes()[index as int],
    {
        self.graphemes[index].as_str()
    }

    /// The lowercase-folded grapheme at an index.
    pub fn lowercase_grapheme_at(&self, index: usize) -> (r: &str)
        requires
            self.wf(),
            index < self.spec_graphemes().len(),
        ensures
            r@ == self.spec_graphemes_lw()[index as int],
    {
        self.graphemes_lw[index].as_str()
    }

    /// Walks the graphemes in their original case.
    pub fn iter(&self) -> (r: std::slice::Iter<'_, String>)
        ensures
            vstd::std_specs::slice::into_iter_elts(r) == self.spec_grapheme_strings(),
    {
        self.graphemes.iter()
    }

    /// Walks the lowercase-folded graphemes.
    pub fn lowercase_iter(&self) -> (r: std::slice::Iter<'_, String>)
        ensures
            vstd::std_specs::slice::into_iter_elts(r) == self.spec_grapheme_lw_strings(),
    {
        self.graphemes_lw.iter()
    }

    /// The underlying string itself.
    pub fn as_str(&self) -> (r: &str)
        ensures
            r@ == self.spec_string(),
    {
        self.string.as_str()
    }

    /// Whether the underlying string holds no character at all, which is
    /// also when it has no graphemes.
    pub fn is_empty(&self) -> (r: bool)
        requires
            self.wf(),
        ensures
            r == (self.spec_string().len() == 0),
            r == (self.spec_graphemes().len() == 0),
    {
        self.string.as_str().is_empty()
    }
}

// ---------------------------------------------------------------------------
// Text: shared, read-only ownership of one Letters value.
// ---------------------------------------------------------------------------

/// Reference-counted, read-only text, shared across many scoring calls
/// without copying the underlying buffers.
pub type Text = Arc<Letters>;

/// Builds shared text values.
pub struct TextBuilder;

impl TextBuilder {
    /// Segments a string once and wraps it for copy-free sharing.
    pub fn build(string: &str) -> (r: Text)
        ensures
            (*r).wf(),
            (*r).spec_string() == string@,
    {
        let text: Letters = Letters::new(string.to_owned());
        Arc::new(text)
    }
}

} // verus!
