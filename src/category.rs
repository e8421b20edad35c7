//! Transaction categories: ten built-in tags and a free-form custom tag that
//! carries its own income/expense flag.

use vstd::prelude::*;
use crate::text::{eq_ignore_ascii_case, trim, trimmed, same_ignoring_ascii_case, same_text};
use crate::transaction::TransactionErr;

verus! {

#[derive(Debug, Clone)]
pub enum Category {
    Food,
    Transport,
    Entertainment,
    Shopping,
    Bills,
    Healthcare,
    Automotive,
    Salary,
    Investment,
    Freelance,
    Custom { income_or_expense: String, name: String },
}

/// The mathematical value of a `Category`: its variant, and for a custom tag
/// the texts of its flag and name.
pub enum CategoryView {
    Food,
    Transport,
    Entertainment,
    Shopping,
    Bills,
    Healthcare,
    Automotive,
    Salary,
    Investment,
    Freelance,
    Custom { flag: Seq<char>, name: Seq<char> },
}

impl View for Category {
    type V = CategoryView;

    open spec fn view(&self) -> CategoryView {
        match self {
            Category::Food => CategoryView::Food,
            Category::Transport => CategoryView::Transport,
            Category::Entertainment => CategoryView::Entertainment,
            Category::Shopping => CategoryView::Shopping,
            Category::Bills => CategoryView::Bills,
            Category::Healthcare => CategoryView::Healthcare,
            Category::Automotive => CategoryView::Automotive,
            Category::Salary => CategoryView::Salary,
            Category::Investment => CategoryView::Investment,
            Category::Freelance => CategoryView::Freelance,
            Category::Custom { income_or_expense, name } => CategoryView::Custom {
                flag: income_or_expense@,
                name: name@,
            },
        }
    }
}

/// The upper-case spelling of each built-in category's name.
pub open spec fn upper_name(c: CategoryView) -> Seq<char> {
    match c {
        CategoryView::Food => "FOOD"@,
        CategoryView::Transport => "TRANSPORT"@,
        CategoryView::Entertainment => "ENTERTAINMENT"@,
        CategoryView::Shopping => "SHOPPING"@,
        CategoryView::Bills => "BILLS"@,
        CategoryView::Healthcare => "HEALTHCARE"@,
        CategoryView::Automotive => "AUTOMOTIVE"@,
        CategoryView::Salary => "SALARY"@,
        CategoryView::Investment => "INVESTMENT"@,
        CategoryView::Freelance => "FREELANCE"@,
        CategoryView::Custom { flag, name } => Seq::<char>::empty(),
    }
}

/// The built-in category whose upper-case name is `u`.
pub open spec fn builtin_of(u: Seq<char>) -> Option<CategoryView> {
    if u == "FOOD"@ {
        Some(CategoryView::Food)
    } else if u == "TRANSPORT"@ {
        Some(CategoryView::Transport)
    } else if u == "ENTERTAINMENT"@ {
        Some(CategoryView::Entertainment)
    } else if u == "SHOPPING"@ {
        Some(CategoryView::Shopping)
    } else if u == "BILLS"@ {
        Some(CategoryView::Bills)
    } else if u == "HEALTHCARE"@ {
        Some(CategoryView::Healthcare)
    } else if u == "AUTOMOTIVE"@ {
        Some(CategoryView::Automotive)
    } else if u == "SALARY"@ {
        Some(CategoryView::Salary)
    } else if u == "INVESTMENT"@ {
        Some(CategoryView::Investment)
    } else if u == "FREELANCE"@ {
        Some(CategoryView::Freelance)
    } else {
        None
    }
}

/// The text `s` in upper case, as `str::to_uppercase` gives it.
pub uninterp spec fn upper_of(s: Seq<char>) -> Seq<char>;

/// `k` is the position of the first `':'` in `t`.
pub open spec fn first_colon_at(t: Seq<char>, k: int) -> bool {
    &&& 0 <= k < t.len()
    &&& t[k] == ':'
    &&& forall|j: int| 0 <= j < k ==> t[j] != ':'
}

pub open spec fn has_colon(t: Seq<char>) -> bool {
    exists|k: int| first_colon_at(t, k)
}

/// The normalized flag of a custom category: `"Income"` for any casing of
/// `income`, `"Expense"` for anything else.
pub open spec fn normalized_flag(raw: Seq<char>) -> Seq<char> {
    if eq_ignore_ascii_case(trim(raw), "income"@) {
        "Income"@
    } else {
        "Expense"@
    }
}

/// The custom category written `<flag>:<name>` in the trimmed text `t`, split at
/// its first colon.
pub open spec fn custom_of(t: Seq<char>) -> CategoryView
    recommends
        has_colon(t),
{
    let k = choose|k: int| first_colon_at(t, k);
    CategoryView::Custom {
        flag: normalized_flag(t.subrange(0, k)),
        name: trim(t.subrange(k + 1, t.len() as int)),
    }
}

/// What `parse_category` makes of the text `s`: a built-in tag, a custom tag,
/// or nothing when the text is neither.
pub open spec fn category_of(s: Seq<char>) -> Option<CategoryView> {
    category_of_parts(trim(s), upper_of(trim(s)))
}

/// What the trimmed text `t`, whose upper case is `u`, denotes: a built-in tag
/// when `u` is a built-in name in capitals, else a custom tag split at the first
/// colon of `t`, else nothing.
pub open spec fn category_of_parts(t: Seq<char>, u: Seq<char>) -> Option<CategoryView> {
    match builtin_of(u) {
        Some(c) => Some(c),
        None => if has_colon(t) {
            Some(custom_of(t))
        } else {
            None
        },
    }
}

/// The text a category is displayed as: a built-in by its name, a custom one
/// by its name alone.
pub open spec fn category_label(c: CategoryView) -> Seq<char> {
    match c {
        CategoryView::Food => "Food"@,
        CategoryView::Transport => "Transport"@,
        CategoryView::Entertainment => "Entertainment"@,
        CategoryView::Shopping => "Shopping"@,
        CategoryView::Bills => "Bills"@,
        CategoryView::Healthcare => "Healthcare"@,
        CategoryView::Automotive => "Automotive"@,
        CategoryView::Salary => "Salary"@,
        CategoryView::Investment => "Investment"@,
        CategoryView::Freelance => "Freelance"@,
        CategoryView::Custom { flag, name } => name,
    }
}

/// Income categories: salary, investment, freelance, and custom tags whose
/// flag is `income` in any casing.
pub open spec fn category_is_income(c: CategoryView) -> bool {
    match c {
        CategoryView::Salary => true,
        CategoryView::Investment => true,
        CategoryView::Freelance => true,
        CategoryView::Custom { flag, name } => eq_ignore_ascii_case(flag, "income"@),
        _ => false,
    }
}

/// Each of the ten built-in names, in any letter case that upper-cases to it
/// and with any surrounding whitespace, parses to its own built-in category.
pub proof fn lemma_builtin_any_case(s: Seq<char>, c: CategoryView)
    requires
        !(c is Custom),
        upper_of(trim(s)) == upper_name(c),
    ensures
        category_of(s) == Some(c),
{
    reveal_strlit("FOOD");
    reveal_strlit("TRANSPORT");
    reveal_strlit("ENTERTAINMENT");
    reveal_strlit("SHOPPING");
    reveal_strlit("BILLS");
    reveal_strlit("HEALTHCARE");
    reveal_strlit("AUTOMOTIVE");
    reveal_strlit("SALARY");
    reveal_strlit("INVESTMENT");
    reveal_strlit("FREELANCE");
    // Names of different lengths differ; those of equal length differ in
    // their first letter.
    let u = upper_of(trim(s));
    assert("FOOD"@.len() == 4);
    assert("TRANSPORT"@.len() == 9);
    assert("ENTERTAINMENT"@.len() == 13);
    assert("SHOPPING"@.len() == 8);
    assert("BILLS"@.len() == 5);
    assert("HEALTHCARE"@.len() == 10);
    assert("AUTOMOTIVE"@.len() == 10);
    assert("SALARY"@.len() == 6);
    assert("INVESTMENT"@.len() == 10);
    assert("FREELANCE"@.len() == 9);
    assert(c is Freelance ==> u[0] != "TRANSPORT"@[0]);
    assert(c is Automotive || c is Investment ==> u[0] != "HEALTHCARE"@[0]);
    assert(c is Investment ==> u[0] != "AUTOMOTIVE"@[0]);
}

fn builtin_category(u: &str) -> (r: Option<Category>)
    ensures
        r matches Some(c) ==> builtin_of(u@) == Some(c@),
        r is None ==> builtin_of(u@) is None,
{
    if same_text(u, "FOOD") {
        Some(Category::Food)
    } else if same_text(u, "TRANSPORT") {
        Some(Category::Transport)
    } else if same_text(u, "ENTERTAINMENT") {
        Some(Category::Entertainment)
    } else if same_text(u, "SHOPPING") {
        Some(Category::Shopping)
    } else if same_text(u, "BILLS") {
        Some(Category::Bills)
    } else if same_text(u, "HEALTHCARE") {
        Some(Category::Healthcare)
    } else if same_text(u, "AUTOMOTIVE") {
        Some(Category::Automotive)
    } else if same_text(u, "SALARY") {
        Some(Category::Salary)
    } else if same_text(u, "INVESTMENT") {
        Some(Category::Investment)
    } else if same_text(u, "FREELANCE") {
        Some(Category::Freelance)
    } else {
        None
    }
}

/// Relies on `str::to_uppercase`: the upper case of a text depends on the text
/// alone.
#[verifier::external_body]
fn uppercase(s: &str) -> (r: String)
    ensures
        r@ == upper_of(s@),
{
    s.to_uppercase()
}

/// Parses a category: one of the ten built-in names in any letter case (the
/// trimmed text upper-cased is the name in capitals),
/// or `<flag>:<name>` split at the first colon, with both parts trimmed and the
/// flag normalized to `Income` or `Expense`. Surrounding whitespace is ignored.
pub fn parse_category(text: &str) -> (r: Result<Category, TransactionErr>)
    ensures
        r matches Ok(c) ==> category_of(text@) == Some(c@),
        r matches Err(e) ==> category_of(text@) is None && e == TransactionErr::CategoryParse,
{
    let t = trimmed(text);
    let upper = uppercase(t);
    category_from_parts(t, upper.as_str())
}

/// Reads a category from the trimmed text `t` and its upper case `upper`: a
/// built-in when `upper` is one of the ten names in capitals, else
/// `<flag>:<name>` split at the first colon of `t`.
pub fn category_from_parts(t: &str, upper: &str) -> (r: Result<Category, TransactionErr>)
    ensures
        r matches Ok(c) ==> category_of_parts(t@, upper@) == Some(c@),
        r matches Err(e) ==> category_of_parts(t@, upper@) is None && e
            == TransactionErr::CategoryParse,
{
    if let Some(c) = builtin_category(upper) {
        return Ok(c);
    }
    let n = t.unicode_len();
    let mut k: usize = 0;
    while k < n && t.get_char(k) != ':'
        invariant
            n == t@.len(),
            k <= n,
            forall|j: int| 0 <= j < k ==> t@[j] != ':',
        decreases n - k,
    {
        k = k + 1;
    }
    if k == n {
        assert(!has_colon(t@)) by {
            if has_colon(t@) {
                let j = choose|j: int| first_colon_at(t@, j);
                assert(t@[j] != ':');
            }
        }
        return Err(TransactionErr::CategoryParse);
    }
    assert(first_colon_at(t@, k as int));
    assert(has_colon(t@));
    proof {
        let c = choose|j: int| first_colon_at(t@, j);
        if c < k {
            assert(t@[c] != ':');
        }
        if c > k {
            assert(t@[k as int] != ':');
        }
        assert(c == k);
    }
    let flag_part = trimmed(t.substring_char(0, k));
    let name_part = trimmed(t.substring_char(k + 1, n));
    let flag = if same_ignoring_ascii_case(flag_part, "income") {
        String::from_str("Income")
    } else {
        String::from_str("Expense")
    };
    Ok(Category::Custom { income_or_expense: flag, name: String::from_str(name_part) })
}

impl Category {
    /// The text the category is displayed as: built-ins by their name, a
    /// custom category by its name only.
    pub fn to_string(&self) -> (r: String)
        ensures
            r@ == category_label(self@),
    {
        match self {
            Category::Food => String::from_str("Food"),
            Category::Transport => String::from_str("Transport"),
            Category::Entertainment => String::from_str("Entertainment"),
            Category::Shopping => String::from_str("Shopping"),
            Category::Bills => String::from_str("Bills"),
            Category::Healthcare => String::from_str("Healthcare"),
            Category::Automotive => String::from_str("Automotive"),
            Category::Salary => String::from_str("Salary"),
            Category::Investment => String::from_str("Investment"),
            Category::Freelance => String::from_str("Freelance"),
            Category::Custom { income_or_expense: _, name } => name.clone(),
        }
    }

    /// Whether the category counts as income rather than expense.
    pub fn is_income(&self) -> (r: bool)
        ensures
            r == category_is_income(self@),
    {
        match self {
            Category::Salary => true,
            Category::Investment => true,
            Category::Freelance => true,
            Category::Custom { income_or_expense, name: _ } => same_ignoring_ascii_case(
                income_or_expense.as_str(),
                "income",
            ),
            _ => false,
        }
    }
}

impl PartialEq for Category {
    fn eq(&self, other: &Category) -> (r: bool) {
        match (self, other) {
            (Category::Food, Category::Food) => true,
            (Category::Transport, Category::Transport) => true,
            (Category::Entertainment, Category::Entertainment) => true,
            (Category::Shopping, Category::Shopping) => true,
            (Category::Bills, Category::Bills) => true,
            (Category::Healthcare, Category::Healthcare) => true,
            (Category::Automotive, Category::Automotive) => true,
            (Category::Salary, Category::Salary) => true,
            (Category::Investment, Category::Investment) => true,
            (Category::Freelance, Category::Freelance) => true,
            (
                Category::Custom { income_or_expense: f1, name: n1 },
                Category::Custom { income_or_expense: f2, name: n2 },
            ) => *f1 == *f2 && *n1 == *n2,
            _ => false,
        }
    }
}

impl vstd::std_specs::cmp::PartialEqSpecImpl for Category {
    open spec fn obeys_eq_spec() -> bool {
        true
    }

    open spec fn eq_spec(&self, other: &Category) -> bool {
        self@ == other@
    }
}

impl std::str::FromStr for Category {
    type Err = TransactionErr;

    fn from_str(s: &str) -> (r: Result<Category, TransactionErr>)
        ensures
            r matches Ok(c) ==> category_of(s@) == Some(c@),
            r matches Err(e) ==> category_of(s@) is None && e == TransactionErr::CategoryParse,
    {
        parse_category(s)
    }
}

} // verus!
