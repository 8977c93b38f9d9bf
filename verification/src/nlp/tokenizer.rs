//! Word segmentation, done by the `jieba_rs` crate with its built-in
//! dictionary, the sets of words that the scorer compares, and a list of
//! custom words.

use vstd::prelude::*;
use crate::text::strings_view;

verus! {

/// The segmenter of the `jieba_rs` crate, of which nothing is known here but
/// what `Tokenizer` says.
#[verifier::external_type_specification]
#[verifier::external_body]
pub struct ExJieba(jieba_rs::Jieba);

/// The words into which the segmenter with its built-in dictionary cuts
/// `text`, in order, without the statistical model for unknown words.
pub uninterp spec fn jieba_cut(text: Seq<char>) -> Seq<Seq<char>>;

/// A segmenter that holds the built-in dictionary and nothing else: the only
/// way to make one is `Tokenizer::new`.
pub(crate) struct Tokenizer {
    inner: jieba_rs::Jieba,
}

impl Tokenizer {
    /// `jieba_rs::Jieba::new`: a segmenter with the built-in dictionary.
    #[verifier::external_body]
    pub(crate) fn new() -> Tokenizer {
        Tokenizer { inner: jieba_rs::Jieba::new() }
    }

    /// `jieba_rs::Jieba::cut` without the statistical model. Assumed: with
    /// the built-in dictionary the words returned depend on the text alone;
    /// they are the ones named `jieba_cut`.
    #[verifier::external_body]
    pub(crate) fn cut(&self, text: &str) -> (words: Vec<String>)
        ensures
            strings_view(words@) == jieba_cut(text@),
    {
        self.inner.cut(text, false).into_iter().map(|w| w.to_string()).collect()
    }

    /// The set of the words of `text` that have two characters or more.
    pub(crate) fn word_set(&self, text: &str) -> (set: TokenSet)
        ensures
            set.wf(),
            set@ == word_set_of(jieba_cut(text@)),
    {
        let words = self.cut(text);
        TokenSet::from_words(words)
    }
}

/// Whether the word has two characters or more.
pub open spec fn is_long_word(w: Seq<char>) -> bool {
    w.len() >= 2
}

/// Whether a word has two characters or more.
pub fn long_word(w: &str) -> (r: bool)
    ensures
        r == is_long_word(w@),
{
    w.unicode_len() >= 2
}

/// The set of the words among `words` that have two characters or more.
pub open spec fn word_set_of(words: Seq<Seq<char>>) -> Set<Seq<char>> {
    Set::new(|w: Seq<char>| words.contains(w) && is_long_word(w))
}

/// A finite set of words, held without repetition in the order in which the
/// words came.
#[derive(Debug)]
pub struct TokenSet {
    pub words: Vec<String>,
}

impl View for TokenSet {
    type V = Set<Seq<char>>;

    open spec fn view(&self) -> Set<Seq<char>> {
        strings_view(self.words@).to_set()
    }
}

impl TokenSet {
    /// No word is held twice.
    pub open spec fn wf(&self) -> bool {
        strings_view(self.words@).no_duplicates()
    }

    /// The empty set.
    pub fn new() -> (s: TokenSet)
        ensures
            s.wf(),
            s@ == Set::<Seq<char>>::empty(),
    {
        let s = TokenSet { words: Vec::new() };
        assert(strings_view(s.words@) =~= Seq::<Seq<char>>::empty());
        assert(s@ =~= Set::<Seq<char>>::empty());
        s
    }

    /// The number of words.
    pub fn len(&self) -> (n: usize)
        requires
            self.wf(),
        ensures
            n == self@.len(),
    {
        proof {
            strings_view(self.words@).unique_seq_to_set();
        }
        self.words.len()
    }

    /// Whether the set holds no word.
    pub fn is_empty(&self) -> (r: bool)
        requires
            self.wf(),
        ensures
            r == (self@.len() == 0),
    {
        self.len() == 0
    }

    /// Whether the set holds the word `w`.
    pub fn contains(&self, w: &str) -> (r: bool)
        ensures
            r == self@.contains(w@),
    {
        let mut i: usize = 0;
        while i < self.words.len()
            invariant
                i <= self.words@.len(),
                forall|k: int| 0 <= k < i ==> strings_view(self.words@)[k] != w@,
            decreases self.words.len() - i,
        {
            if crate::text::same_str(self.words[i].as_str(), w) {
                assert(strings_view(self.words@)[i as int] == w@);
                return true;
            }
            i += 1;
        }
        false
    }

    /// Adds a word; a word that is held already is not added again.
    pub fn insert(&mut self, w: String)
        requires
            old(self).wf(),
        ensures
            final(self).wf(),
            final(self)@ == old(self)@.insert(w@),
    {
        if !self.contains(w.as_str()) {
            let ghost before = strings_view(self.words@);
            self.words.push(w);
            assert(strings_view(self.words@) =~= before.push(w@));
            proof {
                before.lemma_push_to_set_commute(w@);
            }
        } else {
            assert(self@.insert(w@) =~= self@);
        }
    }

    /// The set of the words among `words` that have two characters or more.
    pub fn from_words(words: Vec<String>) -> (set: TokenSet)
        ensures
            set.wf(),
            set@ == word_set_of(strings_view(words@)),
    {
        let mut set = TokenSet::new();
        let mut i: usize = 0;
        assert(set@ =~= word_set_of(strings_view(words@).take(0)));
        while i < words.len()
            invariant
                i <= words@.len(),
                set.wf(),
                set@ == word_set_of(strings_view(words@).take(i as int)),
            decreases words.len() - i,
        {
            let ghost all = strings_view(words@);
            let ghost w = all[i as int];
            assert(all.take(i + 1) =~= all.take(i as int).push(w));
            assert forall|x: Seq<char>| all.take(i + 1).contains(x) <==> (all.take(
                i as int,
            ).contains(x) || x == w) by {
                if all.take(i as int).contains(x) {
                    let k = choose|k: int| 0 <= k < i && all.take(i as int)[k] == x;
                    assert(all.take(i + 1)[k] == x);
                }
                if x == w {
                    assert(all.take(i + 1)[i as int] == x);
                }
            }
            assert(w == words@[i as int]@);
            if long_word(words[i].as_str()) {
                let ghost before = set@;
                set.insert(words[i].clone());
                assert(set@ == before.insert(w));
                assert forall|x: Seq<char>| set@.contains(x) <==> word_set_of(
                    all.take(i + 1),
                ).contains(x) by {
                    assert(before.contains(x) <==> (all.take(i as int).contains(x)
                        && is_long_word(x)));
                }
                assert(set@ =~= word_set_of(all.take(i + 1)));
            } else {
                assert(set@ =~= word_set_of(all.take(i + 1)));
            }
            i += 1;
        }
        assert(strings_view(words@).take(words@.len() as int) =~= strings_view(words@));
        set
    }
}

/// The words of `text`, in order.
pub fn tokenize(text: &str) -> (words: Vec<String>)
    ensures
        strings_view(words@) == jieba_cut(text@),
{
    let tokenizer = Tokenizer::new();
    tokenizer.cut(text)
}

/// The set of the words of `text`, without those of a single character.
pub fn tokenize_to_set(text: &str) -> (set: TokenSet)
    ensures
        set.wf(),
        set@ == word_set_of(jieba_cut(text@)),
{
    let tokenizer = Tokenizer::new();
    tokenizer.word_set(text)
}

/// The words of `text`, in order. The custom words are accepted and have no
/// effect on the segmentation.
pub fn tokenize_with_dict(text: &str, custom_words: &Vec<String>) -> (words: Vec<String>)
    ensures
        strings_view(words@) == jieba_cut(text@),
{
    let tokenizer = Tokenizer::new();
    tokenizer.cut(text)
}

/// `s` without the entries equal to `w`, among the first `k`.
pub open spec fn without(s: Seq<Seq<char>>, w: Seq<char>, k: nat) -> Seq<Seq<char>>
    decreases k,
{
    if k == 0 || k > s.len() {
        Seq::empty()
    } else if s[k - 1] == w {
        without(s, w, (k - 1) as nat)
    } else {
        without(s, w, (k - 1) as nat).push(s[k - 1])
    }
}

/// `s` with `w` added at the end, unless `s` holds it.
pub open spec fn with_word(s: Seq<Seq<char>>, w: Seq<char>) -> Seq<Seq<char>> {
    if s.contains(w) {
        s
    } else {
        s.push(w)
    }
}

/// `s` with the first `k` of `terms` added one after the other.
pub open spec fn with_words(s: Seq<Seq<char>>, terms: Seq<Seq<char>>, k: nat) -> Seq<Seq<char>>
    decreases k,
{
    if k == 0 || k > terms.len() {
        s
    } else {
        with_word(with_words(s, terms, (k - 1) as nat), terms[k - 1])
    }
}

/// The legal terms that a word manager knows by default.
pub open spec fn legal_terms() -> Seq<Seq<char>> {
    seq![
        "网络安全"@,
        "数据安全"@,
        "个人信息"@,
        "网络运营者"@,
        "等级保护"@,
        "分类分级"@,
        "网络日志"@,
        "操作记录"@,
        "罚款"@,
        "吊销"@,
        "许可证"@,
        "暂停业务"@,
    ]
}

/// A list of custom words, each held once, in the order in which they were
/// added.
#[derive(Debug)]
pub struct WordManager {
    custom_words: Vec<String>,
}

impl View for WordManager {
    type V = Seq<Seq<char>>;

    closed spec fn view(&self) -> Seq<Seq<char>> {
        strings_view(self.custom_words@)
    }
}

impl WordManager {
    /// The empty list.
    pub fn new() -> (m: Self)
        ensures
            m@ == Seq::<Seq<char>>::empty(),
    {
        let m = Self { custom_words: Vec::new() };
        assert(m@ =~= Seq::<Seq<char>>::empty());
        m
    }

    /// Adds a word to the list, unless the list holds it.
    pub fn add_word(&mut self, word: String)
        ensures
            final(self)@ == with_word(old(self)@, word@),
    {
        let mut found = false;
        let mut i: usize = 0;
        while i < self.custom_words.len() && !found
            invariant
                i <= self.custom_words@.len(),
                found ==> self@.contains(word@),
                !found ==> forall|k: int| 0 <= k < i ==> self@[k] != word@,
            decreases self.custom_words.len() - i, if found { 0int } else { 1int },
        {
            if crate::text::same_str(self.custom_words[i].as_str(), word.as_str()) {
                assert(self@[i as int] == word@);
                found = true;
            } else {
                i += 1;
            }
        }
        if !found {
            self.custom_words.push(word);
            assert(self@ =~= old(self)@.push(word@));
        }
    }

    /// Removes every entry equal to `word`.
    pub fn remove_word(&mut self, word: &str)
        ensures
            final(self)@ == without(old(self)@, word@, old(self)@.len()),
    {
        let mut kept: Vec<String> = Vec::new();
        let mut i: usize = 0;
        assert(strings_view(kept@) =~= without(self@, word@, 0));
        while i < self.custom_words.len()
            invariant
                i <= self.custom_words@.len(),
                self@ == old(self)@,
                strings_view(kept@) == without(self@, word@, i as nat),
            decreases self.custom_words.len() - i,
        {
            let ghost before = strings_view(kept@);
            if !crate::text::same_str(self.custom_words[i].as_str(), word) {
                kept.push(self.custom_words[i].clone());
                assert(strings_view(kept@) =~= before.push(self@[i as int]));
            }
            i += 1;
        }
        self.custom_words = kept;
    }

    /// The words, in the order in which they were added.
    pub fn get_words(&self) -> (words: &Vec<String>)
        ensures
            strings_view(words@) == self@,
    {
        &self.custom_words
    }

    /// Adds the default legal terms, each unless the list holds it.
    pub fn load_legal_terms(&mut self)
        ensures
            final(self)@ == with_words(old(self)@, legal_terms(), legal_terms().len()),
    {
        let terms: Vec<String> = vec![
            String::from_str("网络安全"),
            String::from_str("数据安全"),
            String::from_str("个人信息"),
            String::from_str("网络运营者"),
            String::from_str("等级保护"),
            String::from_str("分类分级"),
            String::from_str("网络日志"),
            String::from_str("操作记录"),
            String::from_str("罚款"),
            String::from_str("吊销"),
            String::from_str("许可证"),
            String::from_str("暂停业务"),
        ];
        assert(strings_view(terms@) =~= legal_terms());
        let mut i: usize = 0;
        while i < terms.len()
            invariant
                i <= terms@.len(),
                strings_view(terms@) == legal_terms(),
                self@ == with_words(old(self)@, legal_terms(), i as nat),
            decreases terms.len() - i,
        {
            self.add_word(terms[i].clone());
            i += 1;
        }
    }
}

impl Default for WordManager {
    fn default() -> (m: Self)
        ensures
            m@ == with_words(Seq::<Seq<char>>::empty(), legal_terms(), legal_terms().len()),
    {
        let mut manager = Self::new();
        manager.load_legal_terms();
        manager
    }
}

} // verus!
