//! Exam and answer documents made from a book of cards.
use crate::book::{is_draw, min_nat, Book};
use crate::card::{answer_text, card_views, question_text, Card, CardView};
use rand::rngs::StdRng;
use vstd::prelude::*;
use vstd::string::StringExecFns;

verus! {

/// Everything of a document that comes before its first item.
pub const PREAMBLE: &'static str = "\\documentclass[a4paper,11pt]{jsarticle}\n\\usepackage[top=4truecm,bottom=2truecm,left=2truecm,right=2truecm]{geometry}\n\\pagestyle{empty}\n\\renewcommand{\\labelenumi}{(\\arabic{enumi})}\n\\begin{document}\n\\begin{enumerate}\n  \\setlength{\\itemsep}{2truecm}\n";

/// Everything of a document that comes after its last item.
pub const CLOSING: &'static str = "\\end{enumerate}\n\\end{document}\n";

/// What a card shows: its question in an exam, its answer in an answer sheet.
pub open spec fn card_text(c: CardView, flag_exam: bool) -> Seq<char> {
    if flag_exam {
        question_text(c)
    } else {
        answer_text(c)
    }
}

/// The item of the card at position `pos` (counted from one); a page break
/// follows every tenth item.
pub open spec fn item_text(c: CardView, flag_exam: bool, pos: nat) -> Seq<char> {
    let base = "  \\item\n"@ + "    "@ + card_text(c, flag_exam) + "\n"@;
    if pos % 10 == 0 {
        base + "  \\clearpage\n"@
    } else {
        base
    }
}

/// The items of all cards, in order.
pub open spec fn items_text(cs: Seq<CardView>, flag_exam: bool) -> Seq<char>
    decreases cs.len(),
{
    if cs.len() == 0 {
        Seq::empty()
    } else {
        items_text(cs.drop_last(), flag_exam) + item_text(cs.last(), flag_exam, cs.len())
    }
}

/// The whole document for the cards: an exam, or its answer sheet.
pub open spec fn document_text(cs: Seq<CardView>, flag_exam: bool) -> Seq<char> {
    PREAMBLE@ + items_text(cs, flag_exam) + CLOSING@
}

/// Makes an exam and its answers from a book; both documents go into the
/// directory of the card file, under names made from the card file's stem.
#[derive(Clone, Debug)]
pub struct ExamMaker {
    pub book: Book,
    /// The directory where the documents are written.
    pub work_dir: String,
    /// Name of the exam document within `work_dir`.
    pub exam_tex_file: String,
    /// Name of the answer document within `work_dir`.
    pub answer_tex_file: String,
}

impl ExamMaker {
    /// An exam maker that writes into `work_dir`, with document names made
    /// from `stem`, the card file's name without its extension.
    pub fn new(book: Book, work_dir: String, stem: &str) -> (r: ExamMaker)
        ensures
            r.book == book,
            r.work_dir@ == work_dir@,
            r.exam_tex_file@ == "exam_of_"@ + stem@ + ".tex"@,
            r.answer_tex_file@ == "answer_of_"@ + stem@ + ".tex"@,
    {
        let mut exam_tex_file = String::from_str("exam_of_");
        exam_tex_file.append(stem);
        exam_tex_file.append(".tex");
        let mut answer_tex_file = String::from_str("answer_of_");
        answer_tex_file.append(stem);
        answer_tex_file.append(".tex");
        ExamMaker { book, work_dir, exam_tex_file, answer_tex_file }
    }

    /// Draws the exam's cards and makes both documents from the same draw:
    /// the exam first, then the answer sheet.
    pub fn tex_strings(&self, num_problem: usize, rng: &mut StdRng) -> (r: (String, String))
        ensures
            exists|cs: Seq<CardView>, idx: Seq<usize>|
                {
                    &&& is_draw(cs, self.book.card_list@, idx)
                    &&& cs.len() == min_nat(num_problem as nat, self.book.card_list@.len())
                    &&& r.0@ == document_text(cs, true)
                    &&& r.1@ == document_text(cs, false)
                },
    {
        let cards = self.book.pick_up_card_list_randomly_according_to_priority(num_problem, rng);
        let exam = make_tex_string(cards.as_slice(), true);
        let answer = make_tex_string(cards.as_slice(), false);
        let ghost cs = card_views(cards@);
        let ghost idx = choose|idx: Seq<usize>| is_draw(cs, self.book.card_list@, idx);
        assert(is_draw(cs, self.book.card_list@, idx));
        (exam, answer)
    }
}

fn item_string(card: &Card, flag_exam: bool, pos: usize) -> (r: String)
    ensures
        r@ == item_text(card@, flag_exam, pos as nat),
{
    let mut s = String::from_str("  \\item\n");
    s.append("    ");
    let body = if flag_exam {
        card.exam_tex_string()
    } else {
        card.answer_tex_string()
    };
    s.append(body.as_str());
    s.append("\n");
    if pos % 10 == 0 {
        s.append("  \\clearpage\n");
    }
    s
}

/// The document for `card_list`: an exam when `flag_exam` holds, else its
/// answer sheet.
pub fn make_tex_string(card_list: &[Card], flag_exam: bool) -> (r: String)
    ensures
        r@ == document_text(card_views(card_list@), flag_exam),
{
    let ghost cs = card_views(card_list@);
    let mut s = String::from_str(PREAMBLE);
    let mut i: usize = 0;
    assert(cs.take(0) =~= Seq::<CardView>::empty());
    assert(s@ =~= PREAMBLE@ + items_text(cs.take(0), flag_exam));
    while i < card_list.len()
        invariant
            i <= card_list@.len(),
            cs == card_views(card_list@),
            s@ == PREAMBLE@ + items_text(cs.take(i as int), flag_exam),
        decreases card_list@.len() - i,
    {
        let item = item_string(&card_list[i], flag_exam, i + 1);
        s.append(item.as_str());
        proof {
            let next = cs.take(i as int + 1);
            assert(next.drop_last() =~= cs.take(i as int));
            assert(next.last() == card_list@[i as int]@);
        }
        i += 1;
    }
    assert(cs.take(i as int) =~= cs);
    s.append(CLOSING);
    s
}

} // verus!
