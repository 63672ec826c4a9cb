//! Category names and the headless command line
//! (`--headless-clean WindowsTemp BrowserCache ...`).
use vstd::prelude::*;
use crate::models::CleanCategory;
use crate::text::{chars_of, eq_lit};

verus! {

/// The name of a category, as written on the command line.
pub open spec fn spec_category_name(c: CleanCategory) -> Seq<char> {
    match c {
        CleanCategory::WindowsTemp => "WindowsTemp"@,
        CleanCategory::BrowserCache => "BrowserCache"@,
        CleanCategory::WindowsUpdate => "WindowsUpdate"@,
        CleanCategory::RecycleBin => "RecycleBin"@,
        CleanCategory::Thumbnails => "Thumbnails"@,
        CleanCategory::ErrorReports => "ErrorReports"@,
        CleanCategory::MemoryDumps => "MemoryDumps"@,
        CleanCategory::WindowsLogs => "WindowsLogs"@,
        CleanCategory::DeliveryOptimization => "DeliveryOptimization"@,
        CleanCategory::Prefetch => "Prefetch"@,
        CleanCategory::DevCaches => "DevCaches"@,
    }
}

/// The name of a category, as written on the command line.
pub fn category_name(c: CleanCategory) -> (r: &'static str)
    ensures
        r@ == spec_category_name(c),
{
    match c {
        CleanCategory::WindowsTemp => "WindowsTemp",
        CleanCategory::BrowserCache => "BrowserCache",
        CleanCategory::WindowsUpdate => "WindowsUpdate",
        CleanCategory::RecycleBin => "RecycleBin",
        CleanCategory::Thumbnails => "Thumbnails",
        CleanCategory::ErrorReports => "ErrorReports",
        CleanCategory::MemoryDumps => "MemoryDumps",
        CleanCategory::WindowsLogs => "WindowsLogs",
        CleanCategory::DeliveryOptimization => "DeliveryOptimization",
        CleanCategory::Prefetch => "Prefetch",
        CleanCategory::DevCaches => "DevCaches",
    }
}

/// The category a command-line word names, if any.
pub open spec fn category_named(s: Seq<char>) -> Option<CleanCategory> {
    if s == "WindowsTemp"@ {
        Some(CleanCategory::WindowsTemp)
    } else if s == "BrowserCache"@ {
        Some(CleanCategory::BrowserCache)
    } else if s == "WindowsUpdate"@ {
        Some(CleanCategory::WindowsUpdate)
    } else if s == "RecycleBin"@ {
        Some(CleanCategory::RecycleBin)
    } else if s == "Thumbnails"@ {
        Some(CleanCategory::Thumbnails)
    } else if s == "ErrorReports"@ {
        Some(CleanCategory::ErrorReports)
    } else if s == "MemoryDumps"@ {
        Some(CleanCategory::MemoryDumps)
    } else if s == "WindowsLogs"@ {
        Some(CleanCategory::WindowsLogs)
    } else if s == "DeliveryOptimization"@ {
        Some(CleanCategory::DeliveryOptimization)
    } else if s == "Prefetch"@ {
        Some(CleanCategory::Prefetch)
    } else if s == "DevCaches"@ {
        Some(CleanCategory::DevCaches)
    } else {
        None
    }
}

/// The category a command-line word names, if any.
pub fn category_from_name(s: &str) -> (r: Option<CleanCategory>)
    ensures
        r == category_named(s@),
{
    let v = chars_of(s);
    if eq_lit(&v, "WindowsTemp") {
        Some(CleanCategory::WindowsTemp)
    } else if eq_lit(&v, "BrowserCache") {
        Some(CleanCategory::BrowserCache)
    } else if eq_lit(&v, "WindowsUpdate") {
        Some(CleanCategory::WindowsUpdate)
    } else if eq_lit(&v, "RecycleBin") {
        Some(CleanCategory::RecycleBin)
    } else if eq_lit(&v, "Thumbnails") {
        Some(CleanCategory::Thumbnails)
    } else if eq_lit(&v, "ErrorReports") {
        Some(CleanCategory::ErrorReports)
    } else if eq_lit(&v, "MemoryDumps") {
        Some(CleanCategory::MemoryDumps)
    } else if eq_lit(&v, "WindowsLogs") {
        Some(CleanCategory::WindowsLogs)
    } else if eq_lit(&v, "DeliveryOptimization") {
        Some(CleanCategory::DeliveryOptimization)
    } else if eq_lit(&v, "Prefetch") {
        Some(CleanCategory::Prefetch)
    } else if eq_lit(&v, "DevCaches") {
        Some(CleanCategory::DevCaches)
    } else {
        None
    }
}

/// The categories named by `words`, in order; unknown words are skipped.
pub open spec fn named_categories(words: Seq<Seq<char>>) -> Seq<CleanCategory>
    decreases words.len(),
{
    if words.len() == 0 {
        Seq::<CleanCategory>::empty()
    } else {
        let c = named_categories(words.drop_last());
        match category_named(words.last()) {
            Some(x) => c.push(x),
            None => c,
        }
    }
}

/// The categories cleaned when the command line names none.
pub open spec fn default_categories() -> Seq<CleanCategory> {
    seq![CleanCategory::WindowsTemp, CleanCategory::BrowserCache, CleanCategory::WindowsUpdate]
}

/// The flag that selects headless cleaning.
pub const HEADLESS_FLAG: &'static str = "--headless-clean";

/// What the command line `args` (program name excluded) asks for: `None`
/// unless the first word is `--headless-clean`; else the named categories,
/// or the default ones when none is named.
pub open spec fn spec_parse_headless(args: Seq<Seq<char>>) -> Option<Seq<CleanCategory>> {
    if args.len() == 0 || args[0] != HEADLESS_FLAG@ {
        None
    } else if named_categories(args.drop_first()).len() == 0 {
        Some(default_categories())
    } else {
        Some(named_categories(args.drop_first()))
    }
}

/// Parse the command line (program name excluded) of a headless run.
pub fn parse_headless(args: &Vec<String>) -> (r: Option<Vec<CleanCategory>>)
    ensures
        match r {
            Some(v) => spec_parse_headless(args@.map_values(|a: String| a@)) == Some(v@),
            None => spec_parse_headless(args@.map_values(|a: String| a@)) is None,
        },
{
    let ghost words = args@.map_values(|a: String| a@);
    if args.len() == 0 {
        return None;
    }
    let first = chars_of(args[0].as_str());
    if !eq_lit(&first, HEADLESS_FLAG) {
        return None;
    }
    let ghost rest = words.drop_first();
    let mut categories: Vec<CleanCategory> = Vec::new();
    let mut i: usize = 1;
    while i < args.len()
        invariant
            words == args@.map_values(|a: String| a@),
            rest == words.drop_first(),
            1 <= i <= args.len(),
            categories@ == named_categories(rest.subrange(0, i - 1)),
        decreases args.len() - i,
    {
        proof {
            assert(rest.subrange(0, i as int).drop_last() =~= rest.subrange(0, i - 1));
            assert(rest.subrange(0, i as int).last() == args@[i as int]@);
        }
        if let Some(c) = category_from_name(args[i].as_str()) {
            categories.push(c);
        }
        i = i + 1;
    }
    assert(rest.subrange(0, i - 1) =~= rest);
    if categories.len() == 0 {
        let mut d: Vec<CleanCategory> = Vec::new();
        d.push(CleanCategory::WindowsTemp);
        d.push(CleanCategory::BrowserCache);
        d.push(CleanCategory::WindowsUpdate);
        assert(d@ =~= default_categories());
        return Some(d);
    }
    Some(categories)
}

/// The names of `cats`, in order.
pub open spec fn category_names(cats: Seq<CleanCategory>) -> Seq<Seq<char>> {
    cats.map_values(|c: CleanCategory| spec_category_name(c))
}

proof fn lemma_name_round_trip(c: CleanCategory)
    ensures
        category_named(spec_category_name(c)) == Some(c),
{
    reveal_strlit("WindowsTemp");
    reveal_strlit("BrowserCache");
    reveal_strlit("WindowsUpdate");
    reveal_strlit("RecycleBin");
    reveal_strlit("Thumbnails");
    reveal_strlit("ErrorReports");
    reveal_strlit("MemoryDumps");
    reveal_strlit("WindowsLogs");
    reveal_strlit("DeliveryOptimization");
    reveal_strlit("Prefetch");
    reveal_strlit("DevCaches");
    assert("WindowsTemp"@.len() == 11);
    assert("BrowserCache"@.len() == 12);
    assert("WindowsUpdate"@.len() == 13);
    assert("RecycleBin"@.len() == 10);
    assert("Thumbnails"@.len() == 10);
    assert("ErrorReports"@.len() == 12);
    assert("MemoryDumps"@.len() == 11);
    assert("WindowsLogs"@.len() == 11);
    assert("DeliveryOptimization"@.len() == 20);
    assert("Prefetch"@.len() == 8);
    assert("DevCaches"@.len() == 9);
    assert("WindowsTemp"@[0] != "MemoryDumps"@[0]);
    assert("WindowsTemp"@[7] != "WindowsLogs"@[7]);
    assert("MemoryDumps"@[0] != "WindowsLogs"@[0]);
    assert("BrowserCache"@[0] != "ErrorReports"@[0]);
    assert("RecycleBin"@[0] != "Thumbnails"@[0]);
}

proof fn lemma_names_round_trip(cats: Seq<CleanCategory>)
    ensures
        named_categories(category_names(cats)) == cats,
    decreases cats.len(),
{
    if cats.len() > 0 {
        lemma_names_round_trip(cats.drop_last());
        lemma_name_round_trip(cats.last());
        assert(category_names(cats).drop_last() =~= category_names(cats.drop_last()));
    } else {
        assert(category_names(cats) =~= Seq::<Seq<char>>::empty());
    }
}

/// A headless command line naming categories parses back to exactly those
/// categories, in the same order; naming none selects the defaults.
pub proof fn lemma_headless_round_trip(cats: Seq<CleanCategory>)
    ensures
        spec_parse_headless(seq![HEADLESS_FLAG@] + category_names(cats)) == Some(
            if cats.len() == 0 { default_categories() } else { cats },
        ),
{
    let args = seq![HEADLESS_FLAG@] + category_names(cats);
    assert(args.drop_first() =~= category_names(cats));
    lemma_names_round_trip(cats);
}

} // verus!
