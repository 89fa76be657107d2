use vstd::prelude::*;

verus! {

/// The railway companies: three public companies (`EBRC`, `LW`, `TMLC`)
/// and the private ones.
#[derive(Debug, Clone, Copy, PartialEq, Eq, Hash, PartialOrd, Ord, Structural)]
pub enum Company {
    EBRC,
    LW,
    TMLC,
    GT,
    NMFT,
    NED,
    MLM,
}

/// Number of companies.
pub const COMPANY_COUNT: usize = 7;

impl Company {
    /// Position of the company in declaration order, which is also its order.
    pub open spec fn spec_index(self) -> int {
        match self {
            Company::EBRC => 0,
            Company::LW => 1,
            Company::TMLC => 2,
            Company::GT => 3,
            Company::NMFT => 4,
            Company::NED => 5,
            Company::MLM => 6,
        }
    }

    pub open spec fn spec_from_index(i: int) -> Company {
        if i == 0 {
            Company::EBRC
        } else if i == 1 {
            Company::LW
        } else if i == 2 {
            Company::TMLC
        } else if i == 3 {
            Company::GT
        } else if i == 4 {
            Company::NMFT
        } else if i == 5 {
            Company::NED
        } else {
            Company::MLM
        }
    }

    pub fn index(&self) -> (r: usize)
        ensures
            r == self.spec_index(),
            r < COMPANY_COUNT,
            Company::spec_from_index(r as int) == *self,
    {
        match self {
            Company::EBRC => 0,
            Company::LW => 1,
            Company::TMLC => 2,
            Company::GT => 3,
            Company::NMFT => 4,
            Company::NED => 5,
            Company::MLM => 6,
        }
    }

    pub fn from_index(i: usize) -> (c: Company)
        requires
            i < COMPANY_COUNT,
        ensures
            c == Company::spec_from_index(i as int),
            c.spec_index() == i,
    {
        if i == 0 {
            Company::EBRC
        } else if i == 1 {
            Company::LW
        } else if i == 2 {
            Company::TMLC
        } else if i == 3 {
            Company::GT
        } else if i == 4 {
            Company::NMFT
        } else if i == 5 {
            Company::NED
        } else {
            Company::MLM
        }
    }

    /// The order in which private companies become available at auction.
    pub open spec fn spec_next_private(self) -> Option<Company> {
        match self {
            Company::GT => Some(Company::NMFT),
            Company::NMFT => Some(Company::NED),
            Company::NED => Some(Company::MLM),
            _ => None,
        }
    }

    /// The private company that becomes available once `self` has been sold, if any.
    pub fn next_private(&self) -> (r: Option<Company>)
        ensures
            r == self.spec_next_private(),
    {
        match self {
            Company::GT => Some(Company::NMFT),
            Company::NMFT => Some(Company::NED),
            Company::NED => Some(Company::MLM),
            _ => None,
        }
    }
}

/// Every company index names a distinct company.
pub proof fn lemma_company_index(c: Company)
    ensures
        0 <= c.spec_index() < COMPANY_COUNT,
        Company::spec_from_index(c.spec_index()) == c,
{
}

} // verus!
