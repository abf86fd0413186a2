//! Quote collections: picking a passage at random, overall or within a
//! length group.

use vstd::prelude::*;

verus! {

/// A passage to type, and where it comes from.
#[derive(Clone, Debug)]
pub struct Quote {
    pub text: String,
    pub source: Option<String>,
}

/// Why no quote could be picked.
#[derive(Clone, Copy, Debug, PartialEq, Eq, Structural)]
pub enum QuoteError {
    /// The collection holds no quote.
    NoQuotes,
    /// A range of the collection does not lie inside it.
    Corrupted,
}

impl QuoteError {
    /// The message shown to the user.
    pub fn message(&self) -> (r: &'static str)
        ensures
            *self == QuoteError::NoQuotes ==> r@ == "There are no quotes in your quote files"@,
            *self == QuoteError::Corrupted ==> r@ == "Your quotes file is corrupted"@,
    {
        match self {
            QuoteError::NoQuotes => "There are no quotes in your quote files",
            QuoteError::Corrupted => "Your quotes file is corrupted",
        }
    }
}

fn copy_quote(q: &Quote) -> (r: Quote)
    ensures
        r == *q,
{
    let source = match &q.source {
        Some(s) => Some(s.clone()),
        None => None,
    };
    Quote { text: q.text.clone(), source }
}

/// Relies on `rand::random_range`: a value drawn from the inclusive range
/// `lo..=hi` by the thread-local generator. It panics on an empty range,
/// which `requires` leaves out, and when the operating system cannot seed
/// the generator, which no argument causes.
#[verifier::external_body]
fn draw_index(lo: usize, hi: usize) -> (r: usize)
    requires
        lo <= hi,
    ensures
        lo <= r <= hi,
{
    rand::random_range(lo..=hi)
}

/// An inclusive range of quote indices.
pub type Group = (usize, usize);

/// A collection of quotes, with the index ranges of its short, medium, long
/// and huge ones.
pub struct Quoter {
    groups: (Group, Group, Group, Group),
    quotes: Vec<Quote>,
}

impl Quoter {
    pub closed spec fn spec_quotes(&self) -> Seq<Quote> {
        self.quotes@
    }

    pub closed spec fn spec_groups(&self) -> (Group, Group, Group, Group) {
        self.groups
    }

    pub fn new(groups: (Group, Group, Group, Group), quotes: Vec<Quote>) -> (r: Quoter)
        ensures
            r.spec_groups() == groups,
            r.spec_quotes() == quotes@,
    {
        Quoter { groups, quotes }
    }

    /// The index ranges of the short, medium, long and huge quotes.
    pub fn groups(&self) -> (r: (Group, Group, Group, Group))
        ensures
            r == self.spec_groups(),
    {
        self.groups
    }

    /// The quotes of the collection.
    pub fn quotes(&self) -> (r: &Vec<Quote>)
        ensures
            r@ == self.spec_quotes(),
    {
        &self.quotes
    }

    /// Whether `range` is a non-empty inclusive range of indices of the collection.
    pub open spec fn valid_range(&self, range: Group) -> bool {
        range.0 <= range.1 && range.1 < self.spec_quotes().len()
    }

    /// The quote at `index`, once drawn from `range`: the errors of an empty
    /// collection and of a range outside it come first.
    pub fn pick(&self, range: Group, index: usize) -> (r: Result<Quote, QuoteError>)
        requires
            range.0 <= index <= range.1,
        ensures
            self.spec_quotes().len() == 0 ==> r == Err::<Quote, QuoteError>(QuoteError::NoQuotes),
            self.spec_quotes().len() > 0 && !self.valid_range(range) ==> r == Err::<Quote, QuoteError>(
                QuoteError::Corrupted,
            ),
            self.spec_quotes().len() > 0 && self.valid_range(range) ==> r == Ok::<Quote, QuoteError>(
                self.spec_quotes()[index as int],
            ),
    {
        if self.quotes.len() == 0 {
            return Err(QuoteError::NoQuotes);
        }
        let (l, r) = range;
        if l > r || r >= self.quotes.len() {
            return Err(QuoteError::Corrupted);
        }
        Ok(copy_quote(&self.quotes[index]))
    }

    /// A quote drawn at random from the inclusive index range `range`.
    fn get_range(&self, range: Group) -> (r: Result<Quote, QuoteError>)
        ensures
            self.spec_quotes().len() == 0 ==> r == Err::<Quote, QuoteError>(QuoteError::NoQuotes),
            self.spec_quotes().len() > 0 && !self.valid_range(range) ==> r == Err::<Quote, QuoteError>(
                QuoteError::Corrupted,
            ),
            self.spec_quotes().len() > 0 && self.valid_range(range) ==> exists|i: int|
                range.0 <= i <= range.1 && r == Ok::<Quote, QuoteError>(#[trigger] self.spec_quotes()[i]),
    {
        if self.quotes.len() == 0 {
            return Err(QuoteError::NoQuotes);
        }
        let (l, r) = range;
        if l > r || r >= self.quotes.len() {
            return Err(QuoteError::Corrupted);
        }
        let i = draw_index(l, r);
        self.pick(range, i)
    }

    /// A quote drawn at random from the whole collection.
    pub fn get_random(&self) -> (r: Result<Quote, QuoteError>)
        ensures
            self.spec_quotes().len() == 0 ==> r == Err::<Quote, QuoteError>(QuoteError::NoQuotes),
            self.spec_quotes().len() > 0 ==> exists|i: int|
                0 <= i < self.spec_quotes().len() && r == Ok::<Quote, QuoteError>(#[trigger] self.spec_quotes()[i]),
    {
        if self.quotes.len() == 0 {
            return Err(QuoteError::NoQuotes);
        }
        self.get_range((0, self.quotes.len() - 1))
    }

    /// A quote drawn at random from the short ones.
    pub fn get_short(&self) -> (r: Result<Quote, QuoteError>)
        ensures
            self.spec_quotes().len() == 0 ==> r == Err::<Quote, QuoteError>(QuoteError::NoQuotes),
            self.spec_quotes().len() > 0 && !self.valid_range(self.spec_groups().0) ==> r == Err::<Quote, QuoteError>(
                QuoteError::Corrupted,
            ),
            self.spec_quotes().len() > 0 && self.valid_range(self.spec_groups().0) ==> exists|i: int|
                self.spec_groups().0.0 <= i <= self.spec_groups().0.1 && r == Ok::<Quote, QuoteError>(
                    #[trigger] self.spec_quotes()[i],
                ),
    {
        self.get_range(self.groups.0)
    }

    /// A quote drawn at random from the medium ones.
    pub fn get_medium(&self) -> (r: Result<Quote, QuoteError>)
        ensures
            self.spec_quotes().len() == 0 ==> r == Err::<Quote, QuoteError>(QuoteError::NoQuotes),
            self.spec_quotes().len() > 0 && !self.valid_range(self.spec_groups().1) ==> r == Err::<Quote, QuoteError>(
                QuoteError::Corrupted,
            ),
            self.spec_quotes().len() > 0 && self.valid_range(self.spec_groups().1) ==> exists|i: int|
                self.spec_groups().1.0 <= i <= self.spec_groups().1.1 && r == Ok::<Quote, QuoteError>(
                    #[trigger] self.spec_quotes()[i],
                ),
    {
        self.get_range(self.groups.1)
    }

    /// A quote drawn at random from the long ones.
    pub fn get_long(&self) -> (r: Result<Quote, QuoteError>)
        ensures
            self.spec_quotes().len() == 0 ==> r == Err::<Quote, QuoteError>(QuoteError::NoQuotes),
            self.spec_quotes().len() > 0 && !self.valid_range(self.spec_groups().2) ==> r == Err::<Quote, QuoteError>(
                QuoteError::Corrupted,
            ),
            self.spec_quotes().len() > 0 && self.valid_range(self.spec_groups().2) ==> exists|i: int|
                self.spec_groups().2.0 <= i <= self.spec_groups().2.1 && r == Ok::<Quote, QuoteError>(
                    #[trigger] self.spec_quotes()[i],
                ),
    {
        self.get_range(self.groups.2)
    }

    /// A quote drawn at random from the huge ones.
    pub fn get_huge(&self) -> (r: Result<Quote, QuoteError>)
        ensures
            self.spec_quotes().len() == 0 ==> r == Err::<Quote, QuoteError>(QuoteError::NoQuotes),
            self.spec_quotes().len() > 0 && !self.valid_range(self.spec_groups().3) ==> r == Err::<Quote, QuoteError>(
                QuoteError::Corrupted,
            ),
            self.spec_quotes().len() > 0 && self.valid_range(self.spec_groups().3) ==> exists|i: int|
                self.spec_groups().3.0 <= i <= self.spec_groups().3.1 && r == Ok::<Quote, QuoteError>(
                    #[trigger] self.spec_quotes()[i],
                ),
    {
        self.get_range(self.groups.3)
    }
}

} // verus!
