//! The idol database scrape: which listing pages are visited, in what order,
//! and what is written for each.  The caller visits the pages and hands back
//! what each page's extraction script returned.
use vstd::prelude::*;

use crate::json::{opt_json, Json};

verus! {

/// The idol categories of the item database, in the order they are visited.
pub const IDOL_CATEGORIES: [&'static str; 9] = [
    "idols11",
    "idols11_2",
    "idols21",
    "idols12",
    "idols31",
    "idols13",
    "idols41",
    "idols14",
    "idols22",
];

/// The listings of each category, in the order they are visited.
pub const IDOL_LISTINGS: [&'static str; 3] = ["items", "prefixes", "suffixes"];

/// The number of pages visited: every listing of every category.
pub const IDOL_PAGES: usize = 27;

/// The category of page `i`.
pub open spec fn page_category(i: nat) -> Seq<char> {
    IDOL_CATEGORIES@[(i / 3) as int]@
}

/// The listing of page `i`.
pub open spec fn page_listing(i: nat) -> Seq<char> {
    IDOL_LISTINGS@[(i % 3) as int]@
}

/// The address of page `i`.
pub open spec fn page_url(i: nat) -> Seq<char> {
    "https://www.lastepochtools.com/db/category/"@ + page_category(i) + "/"@ + page_listing(i)
}

/// What is written for a page's extraction result: the string it returned,
/// or a note that it returned something else or nothing.
pub open spec fn result_text(result: Option<Json>) -> Seq<char> {
    match result {
        Some(Json::Str(s)) => s@,
        Some(_) => "No string returned"@,
        None => "No data returned"@,
    }
}

/// The section written for page `i`.
pub open spec fn page_section(i: nat, result: Option<Json>) -> Seq<char> {
    "=== "@ + page_category(i) + "/"@ + page_listing(i) + " ===\n"@ + result_text(result) + "\n\n"@
}

/// The scrape visits each listing of each category once: two different
/// pages differ in their category or their listing.
pub proof fn law_idol_pages_distinct(i: nat, j: nat)
    requires
        i < j < IDOL_PAGES,
    ensures
        page_category(i) != page_category(j) || page_listing(i) != page_listing(j),
{
    reveal_strlit("idols11");
    reveal_strlit("idols11_2");
    reveal_strlit("idols21");
    reveal_strlit("idols12");
    reveal_strlit("idols31");
    reveal_strlit("idols13");
    reveal_strlit("idols41");
    reveal_strlit("idols14");
    reveal_strlit("idols22");
    reveal_strlit("items");
    reveal_strlit("prefixes");
    reveal_strlit("suffixes");
    let (ci, cj) = (page_category(i), page_category(j));
    let (li, lj) = (page_listing(i), page_listing(j));
    if i / 3 == j / 3 {
        assert(i % 3 != j % 3);
        assert(li.len() != lj.len() || li[0] != lj[0]);
    } else {
        assert(ci.len() != cj.len() || ci[5] != cj[5] || ci[6] != cj[6]);
    }
}

/// The address of idol listing page `page`.
pub fn idol_page_url(page: usize) -> (r: String)
    requires
        page < IDOL_PAGES,
    ensures
        r@ == page_url(page as nat),
{
    let mut url = String::new();
    url.append("https://www.lastepochtools.com/db/category/");
    url.append(IDOL_CATEGORIES[page / 3]);
    url.append("/");
    url.append(IDOL_LISTINGS[page % 3]);
    url
}

/// The text written for an extraction result.
pub fn scraped_text(result: Option<&Json>) -> (r: String)
    ensures
        r@ == result_text(opt_json(result)),
{
    match result {
        Some(Json::Str(s)) => s.clone(),
        Some(_) => "No string returned".to_owned(),
        None => "No data returned".to_owned(),
    }
}

/// The progress of an idol scrape: the next page to visit and what has been
/// written so far.
pub struct IdolScrape {
    pub page: usize,
    pub output: String,
}

impl IdolScrape {
    /// A scrape that has visited nothing.
    pub fn new() -> (s: IdolScrape)
        ensures
            s.page == 0,
            s.output@ == Seq::<char>::empty(),
    {
        IdolScrape { page: 0, output: String::new() }
    }

    /// The address to visit next, or nothing when every page was visited.
    pub fn next_url(&self) -> (r: Option<String>)
        ensures
            self.page < IDOL_PAGES ==> (r matches Some(u) && u@ == page_url(self.page as nat)),
            self.page >= IDOL_PAGES ==> r is None,
    {
        if self.page < IDOL_PAGES {
            Some(idol_page_url(self.page))
        } else {
            None
        }
    }

    /// Records what the current page's extraction returned and moves on to
    /// the next page.
    pub fn record(&mut self, result: Option<&Json>)
        requires
            old(self).page < IDOL_PAGES,
        ensures
            final(self).page == old(self).page + 1,
            final(self).output@ == old(self).output@ + page_section(
                old(self).page as nat,
                opt_json(result),
            ),
    {
        let page = self.page;
        self.output.append("=== ");
        self.output.append(IDOL_CATEGORIES[page / 3]);
        self.output.append("/");
        self.output.append(IDOL_LISTINGS[page % 3]);
        self.output.append(" ===\n");
        let t = scraped_text(result);
        self.output.append(t.as_str());
        self.output.append("\n\n");
        self.page = page + 1;
        proof {
            assert(self.output@ =~= old(self).output@ + page_section(
                old(self).page as nat,
                opt_json(result),
            ));
        }
    }
}

} // verus!
