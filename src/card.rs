//! Flashcards and card lists.
use vstd::prelude::*;
use vstd::string::StringExecFns;

verus! {

/// The texts of a list of strings.
pub open spec fn texts(v: Seq<String>) -> Seq<Seq<char>> {
    v.map_values(|s: String| s@)
}

/// The view of an optional text.
pub open spec fn opt_text(s: Option<String>) -> Option<Seq<char>> {
    match s {
        Some(t) => Some(t@),
        None => None,
    }
}

/// The view of an optional list of texts.
pub open spec fn opt_texts(l: Option<Vec<String>>) -> Option<Seq<Seq<char>>> {
    match l {
        Some(v) => Some(texts(v@)),
        None => None,
    }
}

/// An optional text that is absent or empty.
pub open spec fn text_is_blank(s: Option<Seq<char>>) -> bool {
    match s {
        Some(t) => t.len() == 0,
        None => true,
    }
}

/// An optional list that is absent or empty.
pub open spec fn list_is_blank(l: Option<Seq<Seq<char>>>) -> bool {
    match l {
        Some(v) => v.len() == 0,
        None => true,
    }
}

/// A flashcard as plain values.
pub struct CardView {
    pub priority: i64,
    pub page: u64,
    pub id: u64,
    pub english: Seq<char>,
    pub sentence: Option<Seq<char>>,
    pub phrase: Option<bool>,
    pub noun: Option<Seq<Seq<char>>>,
    pub adjective: Option<Seq<Seq<char>>>,
    pub verb: Option<Seq<Seq<char>>>,
    pub adverb: Option<Seq<Seq<char>>>,
    pub preposition: Option<Seq<Seq<char>>>,
}

impl CardView {
    /// A card is empty when it has no sentence and no meaning: nothing to ask.
    pub open spec fn is_blank(self) -> bool {
        &&& text_is_blank(self.sentence)
        &&& list_is_blank(self.noun)
        &&& list_is_blank(self.adjective)
        &&& list_is_blank(self.verb)
        &&& list_is_blank(self.adverb)
        &&& list_is_blank(self.preposition)
    }

    /// Whether the card is marked as a phrase; an absent mark means a word.
    pub open spec fn is_phrase(self) -> bool {
        match self.phrase {
            Some(p) => p,
            None => false,
        }
    }
}

/// One flashcard.
#[derive(Clone, Debug, Default)]
pub struct Card {
    /// Weight of the card: the larger, the more likely it is chosen for an exam.
    pub priority: i64,
    /// Page of the card in the word book.
    pub page: u64,
    /// Number of the word in the word book.
    pub id: u64,
    /// The English term asked about.
    pub english: String,
    /// An explanatory sentence as the answer.
    pub sentence: Option<String>,
    /// Whether the term is a phrase rather than a word.
    pub phrase: Option<bool>,
    /// Meanings as a noun.
    pub noun: Option<Vec<String>>,
    /// Meanings as an adjective.
    pub adjective: Option<Vec<String>>,
    /// Meanings as a verb.
    pub verb: Option<Vec<String>>,
    /// Meanings as an adverb.
    pub adverb: Option<Vec<String>>,
    /// Meanings as a preposition.
    pub preposition: Option<Vec<String>>,
}

impl View for Card {
    type V = CardView;

    open spec fn view(&self) -> CardView {
        CardView {
            priority: self.priority,
            page: self.page,
            id: self.id,
            english: self.english@,
            sentence: opt_text(self.sentence),
            phrase: self.phrase,
            noun: opt_texts(self.noun),
            adjective: opt_texts(self.adjective),
            verb: opt_texts(self.verb),
            adverb: opt_texts(self.adverb),
            preposition: opt_texts(self.preposition),
        }
    }
}

/// The views of a sequence of cards.
pub open spec fn card_views(s: Seq<Card>) -> Seq<CardView> {
    s.map_values(|c: Card| c@)
}

/// An ordered collection of flashcards.
#[derive(Clone, Debug, Default)]
pub struct CardList {
    pub card: Vec<Card>,
}

impl View for CardList {
    type V = Seq<CardView>;

    open spec fn view(&self) -> Seq<CardView> {
        card_views(self.card@)
    }
}

fn copy_texts(v: &Vec<String>) -> (r: Vec<String>)
    ensures
        texts(r@) == texts(v@),
{
    let mut r: Vec<String> = Vec::new();
    let mut i: usize = 0;
    while i < v.len()
        invariant
            i <= v@.len(),
            r@.len() == i,
            forall|j: int| 0 <= j < i ==> r@[j]@ == v@[j]@,
        decreases v@.len() - i,
    {
        r.push(v[i].clone());
        i += 1;
    }
    assert(texts(r@) =~= texts(v@));
    r
}

fn copy_opt_texts(l: &Option<Vec<String>>) -> (r: Option<Vec<String>>)
    ensures
        opt_texts(r) == opt_texts(*l),
{
    match l {
        Some(v) => Some(copy_texts(v)),
        None => None,
    }
}

fn copy_opt_text(s: &Option<String>) -> (r: Option<String>)
    ensures
        opt_text(r) == opt_text(*s),
{
    match s {
        Some(t) => Some(t.clone()),
        None => None,
    }
}

/// The text of one decimal digit.
pub open spec fn digit_text(d: nat) -> Seq<char> {
    if d == 0 {
        "0"@
    } else if d == 1 {
        "1"@
    } else if d == 2 {
        "2"@
    } else if d == 3 {
        "3"@
    } else if d == 4 {
        "4"@
    } else if d == 5 {
        "5"@
    } else if d == 6 {
        "6"@
    } else if d == 7 {
        "7"@
    } else if d == 8 {
        "8"@
    } else {
        "9"@
    }
}

/// The decimal text of a number, without leading zeros.
pub open spec fn decimal(n: nat) -> Seq<char>
    decreases n,
{
    if n < 10 {
        digit_text(n)
    } else {
        decimal(n / 10) + digit_text(n % 10)
    }
}

/// The items one after the other, with `sep` between neighbours.
pub open spec fn joined(items: Seq<Seq<char>>, sep: Seq<char>) -> Seq<char>
    decreases items.len(),
{
    if items.len() == 0 {
        Seq::empty()
    } else if items.len() == 1 {
        items[0]
    } else {
        joined(items.drop_last(), sep) + sep + items.last()
    }
}

/// The marker of a part of speech; a phrase has its own marker.
pub open spec fn tag_text(phrase: bool, name: Seq<char>) -> Seq<char> {
    if phrase {
        "["@ + name + "節"@ + "]"@
    } else {
        "["@ + name + "]"@
    }
}

/// The text of one group of meanings: nothing when the group is absent or
/// empty, otherwise its marker and its meanings.
pub open spec fn meaning_text(phrase: bool, l: Option<Seq<Seq<char>>>, name: Seq<char>) -> Seq<
    char,
> {
    match l {
        Some(v) => if v.len() > 0 {
            "  "@ + tag_text(phrase, name) + " "@ + joined(v, "、"@)
        } else {
            Seq::empty()
        },
        None => Seq::empty(),
    }
}

/// Page and number of a card, as shown in front of a question or an answer.
pub open spec fn place_text(c: CardView) -> Seq<char> {
    "p."@ + decimal(c.page as nat) + "~\\#"@ + decimal(c.id as nat)
}

/// The question about a card: the sentence when there is one, otherwise the
/// groups of meanings in the order noun, adjective, verb, adverb, preposition.
pub open spec fn question_text(c: CardView) -> Seq<char> {
    if !text_is_blank(c.sentence) {
        place_text(c) + " "@ + tag_text(false, "文章"@) + " "@ + c.sentence->Some_0
    } else {
        place_text(c) + meaning_text(c.is_phrase(), c.noun, "名詞"@) + meaning_text(
            c.is_phrase(),
            c.adjective,
            "形容詞"@,
        ) + meaning_text(c.is_phrase(), c.verb, "動詞"@) + meaning_text(
            c.is_phrase(),
            c.adverb,
            "副詞"@,
        ) + meaning_text(c.is_phrase(), c.preposition, "前置詞"@)
    }
}

/// The answer to a card: its English term.
pub open spec fn answer_text(c: CardView) -> Seq<char> {
    place_text(c) + " "@ + c.english
}

fn digit_str(d: u64) -> (r: &'static str)
    requires
        d < 10,
    ensures
        r@ == digit_text(d as nat),
{
    if d == 0 {
        "0"
    } else if d == 1 {
        "1"
    } else if d == 2 {
        "2"
    } else if d == 3 {
        "3"
    } else if d == 4 {
        "4"
    } else if d == 5 {
        "5"
    } else if d == 6 {
        "6"
    } else if d == 7 {
        "7"
    } else if d == 8 {
        "8"
    } else {
        "9"
    }
}

fn push_decimal(s: &mut String, n: u64)
    ensures
        final(s)@ == old(s)@ + decimal(n as nat),
    decreases n,
{
    if n >= 10 {
        push_decimal(s, n / 10);
    }
    let ghost mid = s@;
    s.append(digit_str(n % 10));
    assert(s@ =~= old(s)@ + decimal(n as nat)) by {
        if n >= 10 {
            assert(mid == old(s)@ + decimal((n / 10) as nat));
        }
    }
}

/// Relies on `itertools::join`: the `Display` text of each item (for a
/// `String`, the string itself) in order, with `sep` written between neighbours.
#[verifier::external_body]
fn join_texts(items: &Vec<String>, sep: &str) -> (r: String)
    ensures
        r@ == joined(texts(items@), sep@),
{
    itertools::join(items.iter(), sep)
}

/// The marker of a part of speech `name`, for a phrase or a word.
pub fn tag(phrase: bool, name: &str) -> (r: String)
    ensures
        r@ == tag_text(phrase, name@),
{
    let mut r = String::from_str("[");
    r.append(name);
    if phrase {
        r.append("節");
    }
    r.append("]");
    r
}

fn write_meaning_list(phrase: bool, meaning_list: &Option<Vec<String>>, name: &str, s: &mut String)
    ensures
        final(s)@ == old(s)@ + meaning_text(phrase, opt_texts(*meaning_list), name@),
{
    match meaning_list {
        Some(v) => {
            if v.len() > 0 {
                s.append("  ");
                let t = tag(phrase, name);
                s.append(t.as_str());
                s.append(" ");
                let j = join_texts(v, "、");
                s.append(j.as_str());
                assert(s@ =~= old(s)@ + meaning_text(phrase, opt_texts(*meaning_list), name@));
            } else {
                assert(s@ =~= old(s)@ + meaning_text(phrase, opt_texts(*meaning_list), name@));
            }
        },
        None => {
            assert(s@ =~= old(s)@ + meaning_text(phrase, opt_texts(*meaning_list), name@));
        },
    }
}

fn write_place(c: &Card, s: &mut String)
    ensures
        final(s)@ == old(s)@ + place_text(c@),
{
    s.append("p.");
    push_decimal(s, c.page);
    s.append("~\\#");
    push_decimal(s, c.id);
    assert(s@ =~= old(s)@ + place_text(c@));
}

impl Card {
    /// The question about the card, as shown in an exam.
    pub fn exam_tex_string(&self) -> (r: String)
        ensures
            r@ == question_text(self@),
    {
        let mut s = String::new();
        write_place(self, &mut s);
        assert(s@ =~= place_text(self@));
        let has_sentence = match &self.sentence {
            Some(t) => !t.as_str().is_empty(),
            None => false,
        };
        if has_sentence {
            s.append(" ");
            let t = tag(false, "文章");
            s.append(t.as_str());
            s.append(" ");
            match &self.sentence {
                Some(t) => s.append(t.as_str()),
                None => {},
            }
        } else {
            let phrase = match self.phrase {
                Some(p) => p,
                None => false,
            };
            write_meaning_list(phrase, &self.noun, "名詞", &mut s);
            write_meaning_list(phrase, &self.adjective, "形容詞", &mut s);
            write_meaning_list(phrase, &self.verb, "動詞", &mut s);
            write_meaning_list(phrase, &self.adverb, "副詞", &mut s);
            write_meaning_list(phrase, &self.preposition, "前置詞", &mut s);
        }
        s
    }

    /// The answer to the card, as shown in the answer sheet.
    pub fn answer_tex_string(&self) -> (r: String)
        ensures
            r@ == answer_text(self@),
    {
        let mut s = String::new();
        write_place(self, &mut s);
        assert(s@ =~= place_text(self@));
        s.append(" ");
        s.append(self.english.as_str());
        s
    }

    /// A copy of the card that is equal to it field by field.
    pub fn copy(&self) -> (r: Card)
        ensures
            r@ == self@,
    {
        Card {
            priority: self.priority,
            page: self.page,
            id: self.id,
            english: self.english.clone(),
            sentence: copy_opt_text(&self.sentence),
            phrase: self.phrase,
            noun: copy_opt_texts(&self.noun),
            adjective: copy_opt_texts(&self.adjective),
            verb: copy_opt_texts(&self.verb),
            adverb: copy_opt_texts(&self.adverb),
            preposition: copy_opt_texts(&self.preposition),
        }
    }

    /// Whether the card has neither a sentence nor any meaning.
    pub fn is_empty(&self) -> (r: bool)
        ensures
            r == self@.is_blank(),
    {
        let blank_sentence = match &self.sentence {
            Some(s) => s.as_str().is_empty(),
            None => true,
        };
        blank_sentence && list_blank(&self.noun) && list_blank(&self.adjective) && list_blank(
            &self.verb,
        ) && list_blank(&self.adverb) && list_blank(&self.preposition)
    }
}

fn list_blank(l: &Option<Vec<String>>) -> (r: bool)
    ensures
        r == list_is_blank(opt_texts(*l)),
{
    match l {
        Some(v) => v.len() == 0,
        None => true,
    }
}

} // verus!
