use vstd::prelude::*;

use crate::array_string_types::SlugString;

verus! {

/// A portfolio's own columns.
#[derive(Debug)]
pub struct PortfolioRow {
    pub id: i32,
    /// The creation time of this portfolio, in seconds since the unix epoch.
    pub created_at: i64,
    /// The publication time of this portfolio, in seconds since the unix epoch.
    pub published_at: Option<i64>,
    pub slug: SlugString,
    pub title: String,
    pub subtitle: String,
    pub author: String,
}

/// A portfolio with its categories.
#[derive(Debug)]
pub struct Portfolio {
    pub row: PortfolioRow,
    pub categories: Vec<PortfolioCategory>,
}

/// A category's own columns.
#[derive(Debug)]
pub struct PortfolioCategoryRow {
    pub id: i32,
    pub portfolio_id: i32,
    pub title: String,
}

/// A category with the slugs of the works listed in it.
#[derive(Debug)]
pub struct PortfolioCategory {
    pub row: PortfolioCategoryRow,
    pub work_slugs: Vec<SlugString>,
}

impl PortfolioRow {
    pub fn duplicate(&self) -> (r: PortfolioRow)
        ensures
            r == *self,
    {
        PortfolioRow {
            id: self.id,
            created_at: self.created_at,
            published_at: self.published_at,
            slug: self.slug.duplicate(),
            title: self.title.clone(),
            subtitle: self.subtitle.clone(),
            author: self.author.clone(),
        }
    }
}

impl PortfolioCategoryRow {
    pub fn duplicate(&self) -> (r: PortfolioCategoryRow)
        ensures
            r == *self,
    {
        PortfolioCategoryRow { id: self.id, portfolio_id: self.portfolio_id, title: self.title.clone() }
    }
}

} // verus!
