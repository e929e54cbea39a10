//! A purchased item and the tax rule that applies to it.

use crate::amount::{amount_text, format_amount, nearest_nickel, round_numbers};
use crate::tax::Tax;
use vstd::prelude::*;
use vstd::string::*;

verus! {

/// Whether an item was imported.
#[derive(Debug, Clone, Copy, PartialEq, Eq)]
pub enum Imported {
    Yes,
    No,
}

/// The category of an item, with the name that the item is shown under.
#[derive(Debug, Clone, PartialEq, Eq)]
pub enum Category {
    Book(String),
    Food(String),
    Medical(String),
    Other(String),
}

/// A category without its name.
pub enum Kind {
    Book,
    Food,
    Medical,
    Other,
}

/// Why an item could not be made.
#[derive(Debug, Clone, Copy, PartialEq, Eq)]
pub enum ItemError {
    /// The price is negative, or its text is not an amount.
    InvalidPrice,
    /// The line does not consist of a description, ` at ` and a price.
    MissingSeparator,
}

impl Category {
    /// Which of the four categories this is.
    pub open spec fn kind(&self) -> Kind {
        match self {
            Category::Book(_) => Kind::Book,
            Category::Food(_) => Kind::Food,
            Category::Medical(_) => Kind::Medical,
            Category::Other(_) => Kind::Other,
        }
    }

    /// The name that the item is shown under.
    pub open spec fn name(&self) -> Seq<char> {
        match self {
            Category::Book(name) => name@,
            Category::Food(name) => name@,
            Category::Medical(name) => name@,
            Category::Other(name) => name@,
        }
    }
}

/// The tax rate in percent: 10 on the category `Other` and none on the other
/// three, and 5 more on whatever was imported.
pub open spec fn rate_percent(kind: Kind, imported: Imported) -> nat {
    let basic: nat = if kind is Other { 10 } else { 0 };
    let duty: nat = if imported is Yes { 5 } else { 0 };
    basic + duty
}

/// What an item is: its pre-tax price in cents, whether it was imported, its
/// category and the name it is shown under.
pub struct ItemView {
    pub clean_price: nat,
    pub imported: Imported,
    pub kind: Kind,
    pub name: Seq<char>,
}

impl ItemView {
    /// The tax on the item in cents: the rate applied to the pre-tax price,
    /// rounded to the nearest five cents.
    pub open spec fn tax(self) -> nat {
        nearest_nickel(self.clean_price * rate_percent(self.kind, self.imported))
    }

    /// The line that shows the item: `1 `, `imported ` where it was, the
    /// name, `: ` and the price with tax.
    pub open spec fn display(self) -> Seq<char> {
        (if self.imported is Yes { "1 imported "@ } else { "1 "@ }) + self.name + ": "@
            + amount_text(self.clean_price + self.tax())
    }
}

/// The tax on any item is a whole number of five-cent pieces.
pub proof fn lemma_tax_in_nickels(item: ItemView)
    ensures
        item.tax() % 5 == 0,
{
}

/// Nothing is due on a book, on food or on a medical product that was not
/// imported.
pub proof fn lemma_exempt(item: ItemView)
    requires
        !(item.kind is Other),
        item.imported is No,
    ensures
        item.tax() == 0,
{
    assert(item.clean_price * 0 == 0);
}

/// A purchased item. Its pre-tax price is never negative.
#[derive(Debug)]
pub struct Item {
    clean_price: u64,
    imported: Imported,
    category: Category,
}

impl View for Item {
    type V = ItemView;

    closed spec fn view(&self) -> ItemView {
        ItemView {
            clean_price: self.clean_price as nat,
            imported: self.imported,
            kind: self.category.kind(),
            name: self.category.name(),
        }
    }
}

impl Item {
    #[verifier::type_invariant]
    spec fn price_fits(&self) -> bool {
        self.clean_price <= i64::MAX
    }

    /// Makes an item of a pre-tax price in cents. A negative price is
    /// refused with `InvalidPrice`.
    pub fn new(clean_price: i64, imported: Imported, category: Category) -> (r: Result<
        Self,
        ItemError,
    >)
        ensures
            clean_price < 0 <==> r is Err,
            match r {
                Ok(item) => clean_price >= 0 && item@ == (ItemView {
                    clean_price: clean_price as nat,
                    imported,
                    kind: category.kind(),
                    name: category.name(),
                }),
                Err(e) => clean_price < 0 && e == ItemError::InvalidPrice,
            },
    {
        if clean_price < 0 {
            return Err(ItemError::InvalidPrice);
        }
        Ok(Self { clean_price: clean_price as u64, imported, category })
    }

    /// The pre-tax price in cents.
    pub fn clean_price(&self) -> (cents: u64)
        ensures
            cents == self@.clean_price,
    {
        self.clean_price
    }

    /// Whether the item was imported.
    pub fn imported(&self) -> (imported: Imported)
        ensures
            imported == self@.imported,
    {
        self.imported
    }

    /// The category, with the name.
    pub fn category(&self) -> (category: &Category)
        ensures
            category.kind() == self@.kind,
            category.name() == self@.name,
    {
        &self.category
    }

    /// The line that shows the item on a receipt.
    pub fn to_string(&self) -> (line: String)
        ensures
            line@ == self@.display(),
    {
        let name = match &self.category {
            Category::Book(x) | Category::Food(x) | Category::Medical(x) | Category::Other(x) => x,
        };
        let prefix = if matches!(self.imported, Imported::Yes) {
            "1 imported "
        } else {
            "1 "
        };
        let (clean_price, tax) = self.get_prices();
        let mut line = String::from_str(prefix);
        line.append(name.as_str());
        line.append(": ");
        line.append(format_amount((clean_price + tax) as u128).as_str());
        line
    }
}

impl Tax for Item {
    open spec fn prices(&self) -> (nat, nat) {
        (self@.clean_price, self@.tax())
    }

    /// The tax is a whole number of five-cent pieces.
    fn get_prices(&self) -> (r: (u64, u64))
        ensures
            r.1 % 5 == 0,
    {
        proof {
            use_type_invariant(self);
        }
        match (&self.category, &self.imported) {
            (Category::Book(_) | Category::Food(_) | Category::Medical(_), Imported::No) => {
                assert(self@.clean_price * 0 == 0);
                (self.clean_price, 0)
            },
            (Category::Other(_), Imported::No) => {
                (self.clean_price, round_numbers(self.clean_price as u128 * 10) as u64)
            },
            (Category::Book(_) | Category::Food(_) | Category::Medical(_), Imported::Yes) => {
                (self.clean_price, round_numbers(self.clean_price as u128 * 5) as u64)
            },
            (Category::Other(_), Imported::Yes) => {
                (self.clean_price, round_numbers(self.clean_price as u128 * 15) as u64)
            },
        }
    }
}

} // verus!
