//! A basket of priced things: its totals and its receipt.

use crate::amount::{amount_text, format_amount};
use crate::item::{Item, ItemError, ItemView};
use crate::parser::parse_line;
use crate::tax::Tax;
use crate::text::{lines, lines_of, texts};
use vstd::prelude::*;
use vstd::seq_lib::{to_multiset_build, to_multiset_contains, to_multiset_len, to_multiset_remove};
use vstd::string::*;

verus! {

/// The sum of the pre-tax prices of `items`.
pub open spec fn price_total<T: Tax>(items: Seq<T>) -> nat
    decreases items.len(),
{
    if items.len() == 0 {
        0
    } else {
        price_total(items.drop_last()) + items.last().prices().0
    }
}

/// The sum of the taxes on `items`.
pub open spec fn tax_total<T: Tax>(items: Seq<T>) -> nat
    decreases items.len(),
{
    if items.len() == 0 {
        0
    } else {
        tax_total(items.drop_last()) + items.last().prices().1
    }
}

/// The sum over `items` of the pre-tax price with the tax.
pub open spec fn grand_total<T: Tax>(items: Seq<T>) -> nat
    decreases items.len(),
{
    if items.len() == 0 {
        0
    } else {
        grand_total(items.drop_last()) + (items.last().prices().0 + items.last().prices().1)
    }
}

/// What a basket costs is the taxes on its items and their pre-tax prices.
pub proof fn lemma_grand_total_is_tax_and_price<T: Tax>(items: Seq<T>)
    ensures
        grand_total(items) == tax_total(items) + price_total(items),
    decreases items.len(),
{
    if items.len() > 0 {
        lemma_grand_total_is_tax_and_price(items.drop_last());
    }
}

/// The totals of two sequences joined are the sums of their totals.
pub proof fn lemma_totals_of_joined<T: Tax>(front: Seq<T>, back: Seq<T>)
    ensures
        price_total(front + back) == price_total(front) + price_total(back),
        tax_total(front + back) == tax_total(front) + tax_total(back),
        grand_total(front + back) == grand_total(front) + grand_total(back),
    decreases back.len(),
{
    if back.len() == 0 {
        assert(front + back =~= front);
    } else {
        assert((front + back).drop_last() =~= front + back.drop_last());
        lemma_totals_of_joined(front, back.drop_last());
    }
}

/// The totals do not depend on the order of the items.
pub proof fn lemma_totals_ignore_order<T: Tax>(items: Seq<T>, shuffled: Seq<T>)
    requires
        items.to_multiset() == shuffled.to_multiset(),
    ensures
        price_total(items) == price_total(shuffled),
        tax_total(items) == tax_total(shuffled),
        grand_total(items) == grand_total(shuffled),
    decreases items.len(),
{
    to_multiset_len(items);
    to_multiset_len(shuffled);
    if items.len() == 0 {
        assert(shuffled.len() == 0);
    } else {
        let last = items.last();
        let before = items.drop_last();
        assert(before.push(last) =~= items);
        to_multiset_build(before, last);
        to_multiset_contains(shuffled, last);
        assert(shuffled.contains(last));
        let at = choose|at: int| 0 <= at < shuffled.len() && shuffled[at] == last;
        let rest = shuffled.remove(at);
        to_multiset_remove(shuffled, at);
        assert(before.to_multiset() =~= rest.to_multiset());
        lemma_totals_ignore_order(before, rest);
        let front = shuffled.take(at);
        let back = shuffled.skip(at + 1);
        let one = seq![last];
        assert(one.drop_last() =~= Seq::<T>::empty());
        assert(price_total(one.drop_last()) == 0);
        assert(tax_total(one.drop_last()) == 0);
        assert(grand_total(one.drop_last()) == 0);
        assert(shuffled =~= front + one + back);
        assert(rest =~= front + back);
        lemma_totals_of_joined(front, one);
        lemma_totals_of_joined(front + one, back);
        lemma_totals_of_joined(front, back);
    }
}

/// The lines that show `items`, each with a line feed after it.
pub open spec fn item_lines(items: Seq<Item>) -> Seq<char>
    decreases items.len(),
{
    if items.len() == 0 {
        Seq::empty()
    } else {
        item_lines(items.drop_last()) + items.last()@.display() + "\n"@
    }
}

/// The receipt for `items`: a line for each item, in order, then the sales
/// taxes and the total, with a line feed between two lines.
pub open spec fn receipt(items: Seq<Item>) -> Seq<char> {
    item_lines(items) + "Sales Taxes: "@ + amount_text(tax_total(items)) + "\n"@ + "Total: "@
        + amount_text(grand_total(items))
}

/// Whether `items` are what `lines` describe, line by line.
pub open spec fn describes(lines: Seq<Seq<char>>, items: Seq<Item>) -> bool {
    &&& items.len() == lines.len()
    &&& forall|i: int|
        0 <= i < lines.len() ==> parse_line(#[trigger] lines[i]) == Ok::<ItemView, ItemError>(
            items[i]@,
        )
}

/// Whether line `at` is the first of `lines` that describes no item.
pub open spec fn first_error_at(lines: Seq<Seq<char>>, at: int) -> bool {
    &&& 0 <= at < lines.len()
    &&& parse_line(lines[at]) is Err
    &&& forall|before: int| 0 <= before < at ==> parse_line(#[trigger] lines[before]) is Ok
}

/// Whether `e` is the error of the first of `lines` that describes no item.
pub open spec fn fails_with(lines: Seq<Seq<char>>, e: ItemError) -> bool {
    exists|at: int|
        first_error_at(lines, at) && parse_line(lines[at]) == Err::<ItemView, ItemError>(e)
}

/// An ordered collection of priced things.
#[derive(Debug)]
pub struct Basket<T: Tax> {
    elements: Vec<T>,
}

impl<T: Tax> View for Basket<T> {
    type V = Seq<T>;

    closed spec fn view(&self) -> Seq<T> {
        self.elements@
    }
}

impl<T: Tax> Basket<T> {
    /// Makes a basket of `elements`, in their order.
    pub fn new(elements: Vec<T>) -> (basket: Self)
        ensures
            basket@ == elements@,
    {
        Self { elements }
    }

    /// The pre-tax prices and the taxes of all elements, in cents.
    pub fn get_total(&self) -> (total: u128)
        ensures
            total == grand_total(self@),
    {
        let mut total: u128 = 0;
        let mut i: usize = 0;
        while i < self.elements.len()
            invariant
                i <= self.elements@.len(),
                total == grand_total(self.elements@.take(i as int)),
                total <= i * u64::MAX,
            decreases self.elements@.len() - i,
        {
            let (clean_price, tax) = self.elements[i].get_prices();
            proof {
                let seen = self.elements@.take(i + 1);
                assert(seen.drop_last() =~= self.elements@.take(i as int));
                assert(i * u64::MAX + u64::MAX <= usize::MAX * u64::MAX) by (nonlinear_arith)
                    requires
                        i < usize::MAX,
                ;
            }
            total = total + (clean_price as u128 + tax as u128);
            i += 1;
        }
        assert(self.elements@.take(i as int) =~= self.elements@);
        total
    }

    /// The taxes on all elements, in cents.
    pub fn get_tax(&self) -> (total: u128)
        ensures
            total == tax_total(self@),
    {
        let mut total: u128 = 0;
        let mut i: usize = 0;
        while i < self.elements.len()
            invariant
                i <= self.elements@.len(),
                total == tax_total(self.elements@.take(i as int)),
                total <= i * u64::MAX,
            decreases self.elements@.len() - i,
        {
            let (_, tax) = self.elements[i].get_prices();
            proof {
                let seen = self.elements@.take(i + 1);
                assert(seen.drop_last() =~= self.elements@.take(i as int));
                assert(i * u64::MAX + u64::MAX <= usize::MAX * u64::MAX) by (nonlinear_arith)
                    requires
                        i < usize::MAX,
                ;
            }
            total = total + tax as u128;
            i += 1;
        }
        assert(self.elements@.take(i as int) =~= self.elements@);
        total
    }
}

impl Basket<Item> {
    /// The receipt: a line for each item, then the sales taxes and the
    /// total.
    pub fn to_string(&self) -> (s: String)
        ensures
            s@ == receipt(self@),
    {
        let mut s = String::new();
        let mut i: usize = 0;
        while i < self.elements.len()
            invariant
                i <= self.elements@.len(),
                s@ == item_lines(self.elements@.take(i as int)),
            decreases self.elements@.len() - i,
        {
            let line = self.elements[i].to_string();
            proof {
                let shown = self.elements@.take(i + 1);
                assert(shown.drop_last() =~= self.elements@.take(i as int));
            }
            s.append(line.as_str());
            s.append("\n");
            i += 1;
        }
        assert(self.elements@.take(i as int) =~= self.elements@);
        s.append("Sales Taxes: ");
        s.append(format_amount(self.get_tax()).as_str());
        s.append("\n");
        s.append("Total: ");
        s.append(format_amount(self.get_total()).as_str());
        s
    }

    /// Reads a basket from lines, one item a line. The first line that
    /// describes no item ends the reading with its error.
    pub fn from_lines(lines: &[&str]) -> (r: Result<Self, ItemError>)
        ensures
            match r {
                Ok(basket) => describes(texts(lines@), basket@),
                Err(e) => fails_with(texts(lines@), e),
            },
    {
        let mut elements: Vec<Item> = Vec::new();
        let mut i: usize = 0;
        while i < lines.len()
            invariant
                i <= lines@.len(),
                describes(texts(lines@).take(i as int), elements@),
            decreases lines@.len() - i,
        {
            match Item::from_str(lines[i]) {
                Ok(item) => {
                    elements.push(item);
                },
                Err(e) => {
                    assert(first_error_at(texts(lines@), i as int)) by {
                        assert forall|before: int| 0 <= before < i implies parse_line(
                            #[trigger] texts(lines@)[before],
                        ) is Ok by {
                            assert(texts(lines@).take(i as int)[before] == texts(lines@)[before]);
                        }
                    }
                    return Err(e);
                },
            }
            i += 1;
        }
        assert(texts(lines@).take(i as int) =~= texts(lines@));
        Ok(Basket { elements })
    }

    /// Reads a basket from a text, one item a line.
    pub fn from_str(text: &str) -> (r: Result<Self, ItemError>)
        ensures
            match r {
                Ok(basket) => describes(lines_of(text@), basket@),
                Err(e) => fails_with(lines_of(text@), e),
            },
    {
        let lines = lines(text);
        Self::from_lines(lines.as_slice())
    }
}

} // verus!
