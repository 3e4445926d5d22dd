//! Transfer requests and the rule that admits them to a block.

use vstd::prelude::*;
use vstd::string::*;
use crate::text::{int_line, str_line, write_nat, write_str};

verus! {

/// Whether `c` is white space: one of the 25 characters to which Unicode
/// gives the property White_Space. They are the controls U+0009 to U+000D, the
/// space, U+0085, U+00A0, U+1680, U+2000 to U+200A, U+2028, U+2029, U+202F,
/// U+205F and U+3000.
pub open spec fn is_white_space(c: char) -> bool {
    let code = c as int;
    ||| 0x09 <= code <= 0x0D
    ||| code == 0x20
    ||| code == 0x85
    ||| code == 0xA0
    ||| code == 0x1680
    ||| 0x2000 <= code <= 0x200A
    ||| code == 0x2028
    ||| code == 0x2029
    ||| code == 0x202F
    ||| code == 0x205F
    ||| code == 0x3000
}

/// How many white-space characters `s` begins with.
pub open spec fn leading_white_space(s: Seq<char>) -> nat
    decreases s.len(),
{
    if s.len() > 0 && is_white_space(s[0]) {
        1 + leading_white_space(s.drop_first())
    } else {
        0
    }
}

/// How many white-space characters `s` ends with.
pub open spec fn trailing_white_space(s: Seq<char>) -> nat
    decreases s.len(),
{
    if s.len() > 0 && is_white_space(s.last()) {
        1 + trailing_white_space(s.drop_last())
    } else {
        0
    }
}

/// A string without the white space that it begins and ends with.
pub open spec fn trimmed(s: Seq<char>) -> Seq<char> {
    if leading_white_space(s) == s.len() {
        Seq::empty()
    } else {
        s.subrange(leading_white_space(s) as int, s.len() - trailing_white_space(s))
    }
}

/// `str::trim` of std returns the slice of `s` without its leading and
/// trailing white space, where white space is what Unicode's property
/// White_Space marks. The contract says which characters the slice holds.
pub assume_specification[ str::trim ](s: &str) -> (r: &str)
    ensures
        r@ == trimmed(s@),
;

/// Whether `s` holds a character that is not white space.
pub open spec fn has_visible_char(s: Seq<char>) -> bool {
    exists|i: int| 0 <= i < s.len() && !is_white_space(#[trigger] s[i])
}

/// The white space that a string begins with, and that it ends with, is no
/// longer than the string, and is all of it only if every character is white
/// space.
pub proof fn lemma_white_space_runs(s: Seq<char>)
    ensures
        leading_white_space(s) <= s.len(),
        trailing_white_space(s) <= s.len(),
        leading_white_space(s) == s.len() <==> !has_visible_char(s),
        trailing_white_space(s) == s.len() <==> !has_visible_char(s),
        leading_white_space(s) < s.len() ==> leading_white_space(s) + trailing_white_space(s)
            < s.len(),
    decreases s.len(),
{
    if s.len() > 0 {
        let tail = s.drop_first();
        let front = s.drop_last();
        lemma_white_space_runs(tail);
        lemma_white_space_runs(front);
        if has_visible_char(tail) {
            let i = choose|i: int| 0 <= i < tail.len() && !is_white_space(#[trigger] tail[i]);
            assert(!is_white_space(s[i + 1]));
        }
        if has_visible_char(front) {
            let i = choose|i: int| 0 <= i < front.len() && !is_white_space(#[trigger] front[i]);
            assert(!is_white_space(s[i]));
        }
        if has_visible_char(s) {
            let i = choose|i: int| 0 <= i < s.len() && !is_white_space(#[trigger] s[i]);
            if i > 0 {
                assert(!is_white_space(tail[i - 1]));
            }
            if i < s.len() - 1 {
                assert(!is_white_space(front[i]));
            }
        }
        if is_white_space(s[0]) && is_white_space(s.last()) && has_visible_char(s) {
            lemma_white_space_between(s);
        }
    }
}

/// In a string that holds a character that is not white space, the white
/// space at the two ends does not overlap.
proof fn lemma_white_space_between(s: Seq<char>)
    requires
        has_visible_char(s),
    ensures
        leading_white_space(s) + trailing_white_space(s) < s.len(),
{
    let i = choose|i: int| 0 <= i < s.len() && !is_white_space(#[trigger] s[i]);
    lemma_leading_stops(s, i);
    lemma_trailing_stops(s, i);
}

/// The white space that a string begins with ends before any character that
/// is not white space.
proof fn lemma_leading_stops(s: Seq<char>, i: int)
    requires
        0 <= i < s.len(),
        !is_white_space(s[i]),
    ensures
        leading_white_space(s) <= i,
    decreases s.len(),
{
    if i > 0 && is_white_space(s[0]) {
        assert(s.drop_first()[i - 1] == s[i]);
        lemma_leading_stops(s.drop_first(), i - 1);
    }
}

/// The white space that a string ends with begins after any character that is
/// not white space.
proof fn lemma_trailing_stops(s: Seq<char>, i: int)
    requires
        0 <= i < s.len(),
        !is_white_space(s[i]),
    ensures
        trailing_white_space(s) < s.len() - i,
    decreases s.len(),
{
    if i < s.len() - 1 && is_white_space(s.last()) {
        assert(s.drop_last()[i] == s[i]);
        lemma_trailing_stops(s.drop_last(), i);
    }
}

/// Something is left of a string after trimming exactly when it holds a
/// character that is not white space.
pub proof fn lemma_trimmed_len(s: Seq<char>)
    ensures
        trimmed(s).len() > 0 <==> has_visible_char(s),
{
    lemma_white_space_runs(s);
}

/// One transfer from one party to another. The amount is a double-precision
/// number of IEEE 754, held as its 64 bits so that every amount, fractions
/// included, is kept exactly.
#[derive(Debug)]
pub struct Txn {
    pub amount: u64,
    pub from: String,
    pub to: String,
}

/// The bits of positive infinity, the largest pattern that stands for a
/// number: those above it with a clear sign bit are not numbers.
pub const INFINITY_BITS: u64 = 0x7FF0_0000_0000_0000;

/// Whether the bits stand for an amount greater than zero: a positive number,
/// up to infinity. Zero fails, and so does every pattern with the sign bit set
/// and every pattern that is not a number.
pub open spec fn amount_positive(bits: int) -> bool {
    0 < bits <= INFINITY_BITS
}

/// A transaction as plain values.
pub struct TxnView {
    pub amount: int,
    pub from: Seq<char>,
    pub to: Seq<char>,
}

impl View for Txn {
    type V = TxnView;

    open spec fn view(&self) -> TxnView {
        TxnView { amount: self.amount as int, from: self.from@, to: self.to@ }
    }
}

/// The views of a batch, in order.
pub open spec fn batch_view(batch: Seq<Txn>) -> Seq<TxnView> {
    Seq::new(batch.len(), |i: int| batch[i]@)
}

/// A transaction is admissible when it moves a positive amount between two
/// parties whose names keep something when trimmed: each holds a character
/// that is not white space.
pub open spec fn txn_valid(t: TxnView) -> bool {
    &&& amount_positive(t.amount)
    &&& trimmed(t.from).len() > 0
    &&& trimmed(t.to).len() > 0
}

/// Whether every transaction of the batch is admissible.
pub open spec fn batch_valid(batch: Seq<TxnView>) -> bool {
    forall|i: int| 0 <= i < batch.len() ==> txn_valid(#[trigger] batch[i])
}

/// Whether `index` is the position of the first inadmissible transaction.
pub open spec fn is_first_invalid(batch: Seq<TxnView>, index: int) -> bool {
    &&& 0 <= index < batch.len()
    &&& !txn_valid(batch[index])
    &&& forall|i: int| 0 <= i < index ==> txn_valid(#[trigger] batch[i])
}

/// What the line of a transaction's amount begins with.
pub open spec fn amount_label() -> Seq<char> {
    "amount "@
}

/// What the line of the paying party begins with.
pub open spec fn from_label() -> Seq<char> {
    "from "@
}

/// What the line of the receiving party begins with.
pub open spec fn to_label() -> Seq<char> {
    "to "@
}

/// The three lines that record one transaction. The amount line holds the
/// bits of the amount as one decimal number.
pub open spec fn txn_text(t: TxnView) -> Seq<char> {
    int_line(amount_label(), t.amount) + str_line(from_label(), t.from) + str_line(
        to_label(),
        t.to,
    )
}

/// The records of a batch, one after another.
pub open spec fn batch_text(batch: Seq<TxnView>) -> Seq<char>
    decreases batch.len(),
{
    if batch.len() == 0 {
        Seq::empty()
    } else {
        txn_text(batch[0]) + batch_text(batch.drop_first())
    }
}

/// Adding a transaction at the end of a batch adds its record at the end of the
/// batch's text.
pub proof fn lemma_batch_text_push(batch: Seq<TxnView>, t: TxnView)
    ensures
        batch_text(batch.push(t)) == batch_text(batch) + txn_text(t),
    decreases batch.len(),
{
    if batch.len() == 0 {
        assert(batch.push(t).drop_first() =~= Seq::<TxnView>::empty());
        assert(batch_text(batch.push(t)) =~= txn_text(t) + batch_text(Seq::empty()));
    } else {
        lemma_batch_text_push(batch.drop_first(), t);
        assert(batch.push(t).drop_first() =~= batch.drop_first().push(t));
    }
}

impl Clone for Txn {
    fn clone(&self) -> (copy: Self)
        ensures
            copy@ == self@,
    {
        Txn { amount: self.amount, from: self.from.clone(), to: self.to.clone() }
    }
}

impl Txn {
    /// A transfer of the amount with the bits `amount` from `from` to `to`.
    /// Nothing is checked here: see [`Txn::is_valid`].
    pub fn new(amount: u64, from: String, to: String) -> (t: Self)
        ensures
            t.amount == amount,
            t.from == from,
            t.to == to,
    {
        Self { amount, from, to }
    }

    /// Tells whether the transaction may enter a block.
    pub fn is_valid(&self) -> (ok: bool)
        ensures
            ok == txn_valid(self@),
    {
        0 < self.amount && self.amount <= INFINITY_BITS && !self.from.as_str().trim().is_empty()
            && !self.to.as_str().trim().is_empty()
    }

    /// Appends the record of the transaction to `out`.
    pub fn write_to(&self, out: &mut String)
        ensures
            final(out)@ == old(out)@ + txn_text(self@),
    {
        out.append("amount ");
        write_nat(out, self.amount);
        out.append("\n");
        out.append("from ");
        write_str(out, self.from.as_str());
        out.append("\n");
        out.append("to ");
        write_str(out, self.to.as_str());
        out.append("\n");
        proof {
            reveal_strlit("\n");
        }
    }
}

/// Tells whether `c` is white space.
pub fn is_white_space_char(c: char) -> (white: bool)
    ensures
        white == is_white_space(c),
{
    let code: u32 = c as u32;
    (0x09 <= code && code <= 0x0D) || code == 0x20 || code == 0x85 || code == 0xA0 || code
        == 0x1680 || (0x2000 <= code && code <= 0x200A) || code == 0x2028 || code == 0x2029
        || code == 0x202F || code == 0x205F || code == 0x3000
}

/// Tells whether `s` is blank: empty, or white space throughout.
pub fn is_blank(s: &str) -> (blank: bool)
    ensures
        blank == !has_visible_char(s@),
        blank == (trimmed(s@).len() == 0),
{
    proof {
        lemma_trimmed_len(s@);
    }
    for c in it: s.chars()
        invariant
            it.seq() == s@,
            trimmed(s@).len() > 0 <==> has_visible_char(s@),
            forall|i: int| 0 <= i < it.index() ==> is_white_space(#[trigger] s@[i]),
    {
        if !is_white_space_char(c) {
            return false;
        }
    }
    true
}

/// Copies a batch.
pub fn clone_batch(batch: &Vec<Txn>) -> (copy: Vec<Txn>)
    ensures
        batch_view(copy@) == batch_view(batch@),
{
    let mut copy: Vec<Txn> = Vec::new();
    let mut i: usize = 0;
    while i < batch.len()
        invariant
            i <= batch.len(),
            copy.len() == i,
            forall|j: int| 0 <= j < i ==> copy[j]@ == batch[j]@,
        decreases batch.len() - i,
    {
        copy.push(batch[i].clone());
        i += 1;
    }
    copy
}

/// Finds the first transaction of the batch that may not enter a block.
pub fn first_invalid(batch: &Vec<Txn>) -> (found: Option<usize>)
    ensures
        match found {
            Some(index) => is_first_invalid(batch_view(batch@), index as int),
            None => batch_valid(batch_view(batch@)),
        },
{
    let mut i: usize = 0;
    while i < batch.len()
        invariant
            i <= batch.len(),
            forall|j: int| 0 <= j < i ==> txn_valid(#[trigger] batch_view(batch@)[j]),
        decreases batch.len() - i,
    {
        if !batch[i].is_valid() {
            return Some(i);
        }
        i += 1;
    }
    None
}

/// Appends the records of a batch to `out`.
pub fn write_batch(out: &mut String, batch: &Vec<Txn>)
    ensures
        final(out)@ == old(out)@ + batch_text(batch_view(batch@)),
{
    let mut i: usize = 0;
    while i < batch.len()
        invariant
            i <= batch.len(),
            out@ == old(out)@ + batch_text(batch_view(batch@).take(i as int)),
        decreases batch.len() - i,
    {
        batch[i].write_to(out);
        proof {
            let views = batch_view(batch@);
            lemma_batch_text_push(views.take(i as int), views[i as int]);
            assert(views.take(i as int).push(views[i as int]) =~= views.take(i + 1));
        }
        i += 1;
    }
    assert(batch_view(batch@).take(i as int) =~= batch_view(batch@));
}

} // verus!
