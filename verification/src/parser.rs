//! Reading an item from a line of text: a description, ` at `, and a price.

use crate::amount::{parse_amount, readable_amount};
use crate::item::{Category, Imported, Item, ItemError, ItemView, Kind};
use crate::text::{chars_of, contains, find, first_at, index_of, lemma_first_at_is_index_of};
use vstd::prelude::*;
use vstd::slice::*;
use vstd::string::*;

verus! {

/// What stands between the description and the price.
pub open spec fn separator() -> Seq<char> {
    " at "@
}

/// The category that a description is put in: medical where it mentions
/// pills, else food where it mentions chocolate, else (perfume and
/// everything else) other.
pub open spec fn classify(description: Seq<char>) -> Kind {
    if contains(description, "pills"@) {
        Kind::Medical
    } else if contains(description, "chocolate"@) {
        Kind::Food
    } else {
        Kind::Other
    }
}

/// Whether a description says that the item was imported.
pub open spec fn origin(description: Seq<char>) -> Imported {
    if contains(description, "imported"@) {
        Imported::Yes
    } else {
        Imported::No
    }
}

/// The item that a line describes.
///
/// The separator must split the line into exactly two parts, a description
/// and a price; the price must be an amount that is not negative. The whole
/// description becomes the item's name.
pub open spec fn parse_line(line: Seq<char>) -> Result<ItemView, ItemError> {
    if !contains(line, separator()) {
        Err(ItemError::MissingSeparator)
    } else {
        let at = index_of(line, separator());
        let description = line.take(at);
        let price = line.skip(at + separator().len());
        if contains(price, separator()) {
            Err(ItemError::MissingSeparator)
        } else {
            match readable_amount(price) {
                Some(cents) => if cents >= 0 {
                    Ok(
                        ItemView {
                            clean_price: cents as nat,
                            imported: origin(description),
                            kind: classify(description),
                            name: description,
                        },
                    )
                } else {
                    Err(ItemError::InvalidPrice)
                },
                None => Err(ItemError::InvalidPrice),
            }
        }
    }
}

/// A line without the separator is refused for that.
pub proof fn lemma_line_without_separator(line: Seq<char>)
    requires
        !contains(line, separator()),
    ensures
        parse_line(line) == Err::<ItemView, ItemError>(ItemError::MissingSeparator),
{
}

/// A line in which the separator stands again after its first place is
/// refused for that.
pub proof fn lemma_line_with_two_separators(line: Seq<char>, at: int)
    requires
        first_at(line, separator(), at),
        contains(line.skip(at + separator().len()), separator()),
    ensures
        parse_line(line) == Err::<ItemView, ItemError>(ItemError::MissingSeparator),
{
    lemma_first_at_is_index_of(line, separator(), at);
}

/// A line with one separator, at `at`, and after it a text that is no
/// amount, or a negative one, is refused for its price.
pub proof fn lemma_line_with_bad_price(line: Seq<char>, at: int)
    requires
        first_at(line, separator(), at),
        !contains(line.skip(at + separator().len()), separator()),
        readable_amount(line.skip(at + separator().len())) matches Some(cents) ==> cents < 0,
    ensures
        parse_line(line) == Err::<ItemView, ItemError>(ItemError::InvalidPrice),
{
    lemma_first_at_is_index_of(line, separator(), at);
}

/// A line with one separator, at `at`, and after it an amount that is not
/// negative describes an item: the amount is its price, and what stands
/// before the separator is its name and decides the rest.
pub proof fn lemma_line_with_price(line: Seq<char>, at: int, cents: i64)
    requires
        first_at(line, separator(), at),
        !contains(line.skip(at + separator().len()), separator()),
        readable_amount(line.skip(at + separator().len())) == Some(cents),
        cents >= 0,
    ensures
        parse_line(line) == Ok::<ItemView, ItemError>(
            ItemView {
                clean_price: cents as nat,
                imported: origin(line.take(at)),
                kind: classify(line.take(at)),
                name: line.take(at),
            },
        ),
{
    lemma_first_at_is_index_of(line, separator(), at);
}

/// Whether `word` stands somewhere in `text`.
fn mentions(text: &[char], word: &str) -> (b: bool)
    ensures
        b == contains(text@, word@),
{
    let word = chars_of(word);
    find(text, word.as_slice()).is_some()
}

impl Item {
    /// Reads an item from a line such as `1 imported box of chocolates at
    /// 10.00`.
    pub fn from_str(s: &str) -> (r: Result<Item, ItemError>)
        ensures
            match r {
                Ok(item) => parse_line(s@) == Ok::<ItemView, ItemError>(item@),
                Err(e) => parse_line(s@) == Err::<ItemView, ItemError>(e),
            },
    {
        let line = chars_of(s);
        let separator = chars_of(" at ");
        let at = match find(line.as_slice(), separator.as_slice()) {
            Some(at) => at,
            None => {
                return Err(ItemError::MissingSeparator);
            },
        };
        proof {
            lemma_first_at_is_index_of(line@, separator@, at as int);
        }
        let end = line.len();
        let descr = slice_subrange(line.as_slice(), 0, at);
        let price = slice_subrange(line.as_slice(), at + separator.len(), end);
        assert(descr@ =~= s@.take(at as int));
        assert(price@ =~= s@.skip(at + separator@.len()));
        if mentions(price, " at ") {
            return Err(ItemError::MissingSeparator);
        }
        let price = match parse_amount(price) {
            Some(price) => price,
            None => {
                return Err(ItemError::InvalidPrice);
            },
        };
        let imported = if mentions(descr, "imported") {
            Imported::Yes
        } else {
            Imported::No
        };
        let name = String::from_str(s.substring_char(0, at));
        let category = if mentions(descr, "pills") {
            Category::Medical(name)
        } else if mentions(descr, "chocolate") {
            Category::Food(name)
        } else {
            Category::Other(name)
        };
        Item::new(price, imported, category)
    }
}

} // verus!
