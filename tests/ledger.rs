use fincli::commands::{Commands, Effect};
use fincli::listing::{header_row, table_rows};
use fincli::text::is_blank;
use fincli::date::Date;
use fincli::transaction::{read_fields, Transaction, TransactionErr};

fn add(date: &str, amount: &str, category: &str, note: Option<&str>) -> Commands {
    Commands::Add {
        date: date.to_string(),
        amount: amount.to_string(),
        category: category.to_string(),
        note: note.map(|n| n.to_string()),
    }
}

#[test]
fn blank_store_contents_hold_no_records() {
    assert!(is_blank(""));
    assert!(is_blank("  \n\t \r\n"));
    assert!(!is_blank(" [] "));
}

#[test]
fn adding_to_an_empty_store_then_listing() {
    let mut all: Vec<Transaction> = Vec::new();
    let cmd = add("12/25/2024", "100.50", "Entertainment", Some("Christmas gift"));
    assert_eq!(cmd.process(&mut all), Ok(Effect::Save));
    assert_eq!(all.len(), 1);
    let t = &all[0];
    assert_eq!(t.id, 1);
    assert_eq!(t.amount.to_decimal_string(), "100.5");
    assert_eq!(t.category.to_string(), "Entertainment");
    assert_eq!(t.note, Some("Christmas gift".to_string()));

    assert_eq!(Commands::List {}.process(&mut all), Ok(Effect::Show));
    assert_eq!(all.len(), 1);
    let rows = table_rows(&all);
    assert_eq!(rows.len(), 1);
    assert_eq!(rows[0].id, "1");
    assert_eq!(rows[0].amount, "$100.50");
    assert_eq!(rows[0].category, "Entertainment");
    assert_eq!(rows[0].date, "2024-12-25");
    assert_eq!(rows[0].note, "Christmas gift");
}

#[test]
fn custom_category_lists_by_name_only() {
    let mut all: Vec<Transaction> = Vec::new();
    assert_eq!(add("01/05/2024", "500", "income:Bonus", None).process(&mut all), Ok(Effect::Save));
    let rows = table_rows(&all);
    assert_eq!(rows[0].category, "Bonus");
    assert_eq!(rows[0].amount, "$500.00");
    assert_eq!(rows[0].note, "N/A");
}

#[test]
fn rejected_add_leaves_the_collection() {
    let mut all: Vec<Transaction> = Vec::new();
    assert_eq!(add("01/05/2024", "5", "Food", None).process(&mut all), Ok(Effect::Save));
    assert_eq!(add("13/45/2024", "5", "Food", None).process(&mut all), Err(TransactionErr::DateParse));
    assert_eq!(add("01/05/2024", "5", "income", None).process(&mut all), Err(TransactionErr::CategoryParse));
    assert_eq!(all.len(), 1);
    assert_eq!(add("01/06/2024", "7", "Bills", None).process(&mut all), Ok(Effect::Save));
    assert_eq!(all[1].id, 2);
}

#[test]
fn listing_without_note_shows_na() {
    let all = vec![Transaction::new(1, "01/15/2024", "25.50", "Food", None).unwrap()];
    let rows = table_rows(&all);
    assert_eq!(rows[0].note, "N/A");
    assert_eq!(rows[0].amount, "$25.50");
    let h = header_row();
    assert_eq!((h.id.as_str(), h.amount.as_str(), h.category.as_str(), h.date.as_str(), h.note.as_str()),
        ("ID", "Amount", "Category", "Date", "Notes"));
}

#[test]
fn fields_after_the_date_is_read() {
    let d = Date::new(2024, 12, 25).unwrap();
    let (date, amount, _) = read_fields(Some(d), "100.50", "Food").unwrap();
    assert_eq!(date, d);
    assert_eq!(amount.to_currency_string(), "$100.50");
    assert_eq!(read_fields(None, "x", "y").unwrap_err(), TransactionErr::DateParse);
    assert_eq!(read_fields(Some(d), "x", "y").unwrap_err(), TransactionErr::AmountParse);
    assert_eq!(read_fields(Some(d), "1", "y").unwrap_err(), TransactionErr::CategoryParse);
}
