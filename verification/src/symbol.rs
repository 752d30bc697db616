//! The equity indices whose price history the forecast can be built on.

use vstd::prelude::*;

verus! {

/// An S&P 500 index series.
#[derive(Clone, Copy, Debug, PartialEq, Eq, Structural)]
pub enum Snp500Symbol {
    /// The price index.
    SNP500,
    /// The total-return index.
    SNP500TR,
}

impl Snp500Symbol {
    /// The ticker of the series, percent-encoded for use in a URL path.
    pub open spec fn ticker(self) -> Seq<char> {
        match self {
            Snp500Symbol::SNP500 => "%5EGSPC"@,
            Snp500Symbol::SNP500TR => "%5ESP500TR"@,
        }
    }

    /// Returns the percent-encoded ticker of the series.
    pub fn as_str(self) -> (ticker: &'static str)
        ensures
            ticker@ == self.ticker(),
    {
        match self {
            Snp500Symbol::SNP500 => "%5EGSPC",
            Snp500Symbol::SNP500TR => "%5ESP500TR",
        }
    }

    /// The address of the daily price history of the series, as CSV.
    pub open spec fn history_address(self) -> Seq<char> {
        "https://query1.finance.yahoo.com/v7/finance/download/"@ + self.ticker()
            + "?period1=-576032400&period2=4102441200&interval=1d&events=history&includeAdjustedClose=true"@
    }

    /// Returns the address from which the daily price history of the series
    /// can be downloaded as CSV.
    pub fn history_url(self) -> (url: String)
        ensures
            url@ == self.history_address(),
    {
        let mut url = String::from_str("https://query1.finance.yahoo.com/v7/finance/download/");
        url.append(self.as_str());
        url.append(
            "?period1=-576032400&period2=4102441200&interval=1d&events=history&includeAdjustedClose=true",
        );
        url
    }
}

} // verus!
