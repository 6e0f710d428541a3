//! The word catalog: a deduplicated collection of (word, language) entries.
//! The same word may appear once per language; inserting a pair that is
//! already present is a successful no-op.

use vstd::prelude::*;

use crate::StoreError;

verus! {

/// One catalog entry as it crosses the store's boundary.
#[derive(Debug, Clone, PartialEq, Eq)]
pub struct Word {
    pub word: String,
    pub language: String,
}

impl View for Word {
    type V = (Seq<char>, Seq<char>);

    open spec fn view(&self) -> (Seq<char>, Seq<char>) {
        (self.word@, self.language@)
    }
}

/// Whether some entry in `entries` is exactly the pair (`word`, `language`).
pub open spec fn contains_entry(
    entries: Seq<(Seq<char>, Seq<char>)>,
    word: Seq<char>,
    language: Seq<char>,
) -> bool {
    exists|i: int|
        #![trigger entries[i]]
        0 <= i < entries.len() && entries[i].0 == word && entries[i].1 == language
}

/// No two entries carry the same (word, language) pair.
pub open spec fn entries_unique(entries: Seq<(Seq<char>, Seq<char>)>) -> bool {
    forall|i: int, j: int|
        0 <= i < entries.len() && 0 <= j < entries.len() && #[trigger] entries[i]
            == #[trigger] entries[j] ==> i == j
}

/// What the catalog holds after an insertion of (`word`, `language`): the
/// same entries when the pair was already present, one more entry otherwise.
pub open spec fn add_result(
    pre: Seq<(Seq<char>, Seq<char>)>,
    word: Seq<char>,
    language: Seq<char>,
) -> Seq<(Seq<char>, Seq<char>)> {
    if contains_entry(pre, word, language) {
        pre
    } else {
        pre.push((word, language))
    }
}

/// The deduplicated catalog. The view is the sequence of (word, language)
/// pairs, each string seen as its characters; no order is promised to stay.
pub struct WordCatalogStore {
    entries: Vec<Word>,
}

impl View for WordCatalogStore {
    type V = Seq<(Seq<char>, Seq<char>)>;

    closed spec fn view(&self) -> Seq<(Seq<char>, Seq<char>)> {
        self.entries@.map_values(|w: Word| w@)
    }
}

impl WordCatalogStore {
    #[verifier::type_invariant]
    spec fn inv(self) -> bool {
        entries_unique(self@)
    }

    /// An empty catalog; the persistent schema behind it starts empty too.
    pub fn new() -> (s: Self)
        ensures
            s@ == Seq::<(Seq<char>, Seq<char>)>::empty(),
    {
        let s = WordCatalogStore { entries: Vec::new() };
        proof {
            assert(s@ =~= Seq::<(Seq<char>, Seq<char>)>::empty());
        }
        s
    }

    /// Where the pair (`word`, `language`) sits, if anywhere.
    fn index_of(&self, word: &str, language: &str) -> (r: Option<usize>)
        ensures
            r is Some ==> r->Some_0 < self@.len() && self@[r->Some_0 as int].0 == word@
                && self@[r->Some_0 as int].1 == language@,
            r is None ==> !contains_entry(self@, word@, language@),
    {
        let word_needle: String = word.to_owned();
        let language_needle: String = language.to_owned();
        let mut i: usize = 0;
        while i < self.entries.len()
            invariant
                i <= self.entries.len(),
                word_needle@ == word@,
                language_needle@ == language@,
                forall|j: int|
                    0 <= j < i ==> !(#[trigger] self@[j].0 == word@ && self@[j].1 == language@),
            decreases self.entries.len() - i,
        {
            if self.entries[i].word == word_needle && self.entries[i].language == language_needle {
                return Some(i);
            }
            i = i + 1;
        }
        None
    }

    /// True exactly when an entry matches both fields, with no normalization.
    pub fn word_exists(&self, word: &str, language: &str) -> (r: bool)
        ensures
            r == contains_entry(self@, word@, language@),
    {
        match self.index_of(word, language) {
            Some(_) => true,
            None => false,
        }
    }

    /// Inserts the pair unless it is already catalogued; either way the call
    /// succeeds and afterwards the catalog contains the pair.
    pub fn add_word(&mut self, word: &str, language: &str) -> (r: Result<(), StoreError>)
        ensures
            r is Ok,
            final(self)@ == add_result(old(self)@, word@, language@),
    {
        proof {
            use_type_invariant(&*self);
        }
        if self.word_exists(word, language) {
            return Ok(());
        }
        let ghost pre = self@;
        let mut rows: Vec<Word> = Vec::new();
        std::mem::swap(&mut rows, &mut self.entries);
        rows.push(Word { word: word.to_owned(), language: language.to_owned() });
        proof {
            assert(forall|i: int| 0 <= i < pre.len() ==> (#[trigger] rows@[i])@ == pre[i]);
            assert(rows@[pre.len() as int]@ == (word@, language@));
            assert forall|i: int, j: int|
                0 <= i < rows@.len() && 0 <= j < rows@.len() && #[trigger] rows@[i]@
                    == #[trigger] rows@[j]@ implies i == j by {
                if i < pre.len() && j < pre.len() {
                    assert(pre[i] == pre[j]);
                }
                if i < pre.len() && j == pre.len() {
                    assert(pre[i].0 == word@ && pre[i].1 == language@);
                    assert(contains_entry(pre, word@, language@));
                }
                if j < pre.len() && i == pre.len() {
                    assert(pre[j].0 == word@ && pre[j].1 == language@);
                    assert(contains_entry(pre, word@, language@));
                }
            }
        }
        self.entries = rows;
        proof {
            assert(self@ =~= pre.push((word@, language@)));
        }
        Ok(())
    }

    /// Every catalogued entry, re-read in full on each call; callers must not
    /// rely on the order.
    pub fn fetch_words_from_db(&self) -> (r: Result<Vec<Word>, StoreError>)
        ensures
            r is Ok,
            (r->Ok_0)@.map_values(|w: Word| w@) == self@,
    {
        let mut out: Vec<Word> = Vec::new();
        let mut i: usize = 0;
        while i < self.entries.len()
            invariant
                i <= self.entries.len(),
                out@.len() == i,
                forall|j: int| 0 <= j < i ==> (#[trigger] out@[j])@ == self@[j],
            decreases self.entries.len() - i,
        {
            out.push(
                Word {
                    word: self.entries[i].word.clone(),
                    language: self.entries[i].language.clone(),
                },
            );
            i = i + 1;
        }
        proof {
            assert(out@.map_values(|w: Word| w@) =~= self@);
        }
        Ok(out)
    }
}

/// Law: inserting a pair and inserting it again gives the same catalog as
/// inserting it once, and the listing then holds exactly one entry equal to
/// the pair.
pub proof fn lemma_add_idempotent(
    pre: Seq<(Seq<char>, Seq<char>)>,
    word: Seq<char>,
    language: Seq<char>,
)
    requires
        entries_unique(pre),
    ensures
        entries_unique(add_result(pre, word, language)),
        add_result(add_result(pre, word, language), word, language) == add_result(
            pre,
            word,
            language,
        ),
        add_result(pre, word, language).exactly_one(
            |row: (Seq<char>, Seq<char>)| row.0 == word && row.1 == language,
        ),
{
    let post = add_result(pre, word, language);
    let pred = |row: (Seq<char>, Seq<char>)| row.0 == word && row.1 == language;
    if contains_entry(pre, word, language) {
        let k = choose|i: int|
            0 <= i < pre.len() && pre[i].0 == word && #[trigger] pre[i].1 == language;
        assert(pre[k] == (word, language));
        assert forall|i: int| 0 <= i < pre.len() && i != k implies !(#[trigger] pred(pre[i])) by {
            if pred(pre[i]) {
                assert(pre[i] == pre[k]);
            }
        }
        crate::lemma_filter_single(pre, pred, k);
    } else {
        assert(post[pre.len() as int] == (word, language));
        assert(contains_entry(post, word, language));
        assert forall|i: int, j: int|
            0 <= i < post.len() && 0 <= j < post.len() && #[trigger] post[i] == #[trigger] post[j]
                implies i == j by {
            if i < pre.len() && j == pre.len() {
                assert(contains_entry(pre, word, language));
            }
            if j < pre.len() && i == pre.len() {
                assert(contains_entry(pre, word, language));
            }
        }
        assert forall|i: int| 0 <= i < post.len() && i != pre.len() implies !(#[trigger] pred(
            post[i],
        )) by {
            if pred(post[i]) {
                assert(contains_entry(pre, word, language));
            }
        }
        crate::lemma_filter_single(post, pred, pre.len() as int);
    }
}

/// Law: a pair is absent from a fresh catalog, and present immediately after
/// it is added.
pub proof fn lemma_exists_after_add(
    pre: Seq<(Seq<char>, Seq<char>)>,
    word: Seq<char>,
    language: Seq<char>,
)
    ensures
        !contains_entry(Seq::<(Seq<char>, Seq<char>)>::empty(), word, language),
        contains_entry(add_result(pre, word, language), word, language),
{
    if !contains_entry(pre, word, language) {
        let post = add_result(pre, word, language);
        assert(post[pre.len() as int].0 == word && post[pre.len() as int].1 == language);
    }
}

} // verus!
