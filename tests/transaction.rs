use fincli::amount::{parse_amount, Amount};
use fincli::category::Category;
use fincli::commands::Commands;
use fincli::date::Date;
use fincli::transaction::{next_id, parse_trans, Transaction, TransactionErr};

#[test]
fn test_add_command_creation() {
    let command = Commands::Add {
        date: "01/15/2024".to_string(),
        amount: "25.50".to_string(),
        category: "Food".to_string(),
        note: Some("Lunch".to_string()),
    };

    match command {
        Commands::Add { date, amount, category, note } => {
            assert_eq!(date, "01/15/2024");
            assert_eq!(amount, "25.50");
            assert_eq!(category, "Food");
            assert_eq!(note, Some("Lunch".to_string()));
        }
        _ => panic!("Expected Add command"),
    }
}

#[test]
fn test_add_command_without_note() {
    let command = Commands::Add {
        date: "01/15/2024".to_string(),
        amount: "25.50".to_string(),
        category: "Food".to_string(),
        note: None,
    };

    match command {
        Commands::Add { date, amount, category, note } => {
            assert_eq!(date, "01/15/2024");
            assert_eq!(amount, "25.50");
            assert_eq!(category, "Food");
            assert_eq!(note, None);
        }
        _ => panic!("Expected Add command"),
    }
}

#[test]
fn test_list_command() {
    let command = Commands::List {};
    match command {
        Commands::List {} => {}
        _ => panic!("Expected List command"),
    }
}

#[test]
fn test_transaction_creation_from_add_command() {
    let add_command = Commands::Add {
        date: "01/15/2024".to_string(),
        amount: "25.50".to_string(),
        category: "Food".to_string(),
        note: Some("Lunch".to_string()),
    };

    match add_command {
        Commands::Add { date, amount, category, note } => {
            let transaction = Transaction::new(1, &date, &amount, &category, note).unwrap();
            assert!(transaction.amount.to_decimal_string().contains("25.5"));
            assert!(transaction.category.to_string().contains("Food"));
        }
        _ => panic!("Expected Add command"),
    }
}

#[test]
fn test_transaction_creation_with_invalid_data() {
    let add_command = Commands::Add {
        date: "invalid-date".to_string(),
        amount: "25.50".to_string(),
        category: "Food".to_string(),
        note: None,
    };

    match add_command {
        Commands::Add { date, amount, category, note } => {
            let result = Transaction::new(1, &date, &amount, &category, note);
            assert!(result.is_err());
        }
        _ => panic!("Expected Add command"),
    }
}

#[test]
fn test_id_increment_logic() {
    let transactions = vec![
        Transaction::new(1, "01/15/2024", "25.50", "Food", None).unwrap(),
        Transaction::new(2, "01/16/2024", "30.00", "Transport", None).unwrap(),
    ];

    let next = next_id(&transactions);
    assert_eq!(next, 3);

    let new_transaction = Transaction::new(next, "01/17/2024", "15.00", "Entertainment", None).unwrap();

    assert_eq!(new_transaction.id, 3);
    assert!(new_transaction.amount.to_decimal_string().contains("15"));
    assert!(new_transaction.category.to_string().contains("Entertainment"));
}

#[test]
fn test_trans_parse_happy() {
    let raw_date: &str = "11/30/2000";
    let raw_amount: &str = "15.00";
    let raw_cat: &str = "Food";
    let parse = parse_trans(raw_date, raw_amount, raw_cat);

    let date = Date::new(2000, 11, 30).unwrap();
    let amount = parse_amount("15").unwrap();
    let cat = Category::Food;

    assert_eq!((date, amount, cat), parse.unwrap());
}

#[test]
fn test_transaction_new_success() {
    let transaction =
        Transaction::new(1, "12/25/2024", "100.50", "Entertainment", Some("Christmas gift".to_string()))
            .unwrap();
    assert!(transaction.amount.to_decimal_string().contains("100.5"));
    assert!(transaction.category.to_string().contains("Entertainment"));
}

#[test]
fn test_transaction_new_without_note() {
    let transaction = Transaction::new(2, "01/01/2024", "25.00", "Transport", None).unwrap();
    assert!(transaction.amount.to_decimal_string().contains("25"));
    assert!(transaction.category.to_string().contains("Transport"));
    assert_eq!(transaction.note, None);
}

#[test]
fn test_transaction_new_invalid_date() {
    let result = Transaction::new(3, "invalid-date", "50.00", "Food", None);
    assert!(result.is_err());
    match result {
        Err(TransactionErr::DateParse) => (),
        _ => panic!("Expected DateParse error"),
    }
}

#[test]
fn test_transaction_new_invalid_amount() {
    let result = Transaction::new(4, "01/01/2024", "not-a-number", "Food", None);
    assert!(result.is_err());
    match result {
        Err(TransactionErr::AmountParse) => (),
        _ => panic!("Expected AmountParse error"),
    }
}

#[test]
fn test_transaction_new_invalid_category() {
    let result = Transaction::new(5, "01/01/2024", "50.00", "InvalidCategory", None);
    assert!(result.is_err());
    match result {
        Err(TransactionErr::CategoryParse) => (),
        _ => panic!("Expected CategoryParse error"),
    }
}

#[test]
fn test_parse_trans_invalid_date() {
    let result = parse_trans("invalid", "50.00", "Food");
    assert!(result.is_err());
    match result {
        Err(TransactionErr::DateParse) => (),
        _ => panic!("Expected DateParse error"),
    }
}

#[test]
fn test_parse_trans_invalid_amount() {
    let result = parse_trans("01/01/2024", "invalid", "Food");
    assert!(result.is_err());
    match result {
        Err(TransactionErr::AmountParse) => (),
        _ => panic!("Expected AmountParse error"),
    }
}

#[test]
fn test_parse_trans_invalid_category() {
    let result = parse_trans("01/01/2024", "50.00", "InvalidCategory");
    assert!(result.is_err());
    match result {
        Err(TransactionErr::CategoryParse) => (),
        _ => panic!("Expected CategoryParse error"),
    }
}

#[test]
fn test_parse_trans_various_categories() {
    let categories = vec![
        ("Food", Category::Food),
        ("Transport", Category::Transport),
        ("Entertainment", Category::Entertainment),
        ("Shopping", Category::Shopping),
        ("Bills", Category::Bills),
        ("Healthcare", Category::Healthcare),
        ("Automotive", Category::Automotive),
        ("Salary", Category::Salary),
        ("Investment", Category::Investment),
        ("Freelance", Category::Freelance),
    ];

    for (input, expected) in categories {
        let result = parse_trans("01/01/2024", "50.00", input);
        assert!(result.is_ok());
        let (_, _, category) = result.unwrap();
        assert_eq!(category, expected);
    }
}

#[test]
fn test_parse_trans_custom_category() {
    let result = parse_trans("01/01/2024", "50.00", "income:Bonus");
    assert!(result.is_ok());
    let (_, _, category) = result.unwrap();

    match category {
        Category::Custom { income_or_expense, name } => {
            assert_eq!(income_or_expense, "Income");
            assert_eq!(name, "Bonus");
        }
        _ => panic!("Expected Custom category"),
    }
}

#[test]
fn malformed_date_wins_over_other_errors() {
    assert_eq!(parse_trans("not-a-date", "abc", "nope").unwrap_err(), TransactionErr::DateParse);
    assert_eq!(parse_trans("2024-12-25", "1", "Food").unwrap_err(), TransactionErr::DateParse);
    assert_eq!(parse_trans("02/30/2024", "1", "Food").unwrap_err(), TransactionErr::DateParse);
}

#[test]
fn malformed_amount_with_valid_date() {
    assert_eq!(parse_trans("12/25/2024", "abc", "nope").unwrap_err(), TransactionErr::AmountParse);
    assert_eq!(parse_trans("12/25/2024", "$5", "Food").unwrap_err(), TransactionErr::AmountParse);
    assert_eq!(parse_trans("12/25/2024", "1,000", "Food").unwrap_err(), TransactionErr::AmountParse);
}

#[test]
fn parsed_date_fields() {
    let (d, _, _) = parse_trans("02/29/2024", "1", "Food").unwrap();
    assert_eq!(d, Date { year: 2024, month: 2, day: 29 });
    assert_eq!(d.to_iso_string(), "2024-02-29");
}

#[test]
fn amount_grammar_and_values() {
    assert_eq!(parse_amount("100.50").unwrap(), Amount { negative: false, units: 1005, exponent: -1 });
    assert_eq!(parse_amount("-5").unwrap(), Amount { negative: true, units: 5, exponent: 0 });
    assert_eq!(parse_amount("+.25").unwrap(), Amount { negative: false, units: 25, exponent: -2 });
    assert_eq!(parse_amount("7.").unwrap(), Amount { negative: false, units: 7, exponent: 0 });
    assert_eq!(parse_amount("0.000").unwrap(), Amount { negative: false, units: 0, exponent: 0 });
    for bad in ["", "-", ".", "1.2.3", " 1", "1 ", "inf", "NaN", "--1", "12a", "1e", "1e+", "e5", ".e1", "1e5.0", "1e999"] {
        assert_eq!(parse_amount(bad).unwrap_err(), TransactionErr::AmountParse, "{}", bad);
    }
    assert_eq!(
        parse_amount("340282366920938463463374607431768211456").unwrap(),
        Amount { negative: false, units: 34028236692093846346337460743176821145, exponent: 1 }
    );
    assert_eq!(
        parse_amount("3402823669209384634633746074317682114550").unwrap(),
        Amount { negative: false, units: 34028236692093846346337460743176821145, exponent: 2 }
    );
}

#[test]
fn amounts_in_exponent_form() {
    assert_eq!(parse_amount("1e3").unwrap(), Amount { negative: false, units: 1, exponent: 3 });
    assert_eq!(parse_amount("2.5E-1").unwrap(), Amount { negative: false, units: 25, exponent: -2 });
    assert_eq!(parse_amount("-1E+2").unwrap(), Amount { negative: true, units: 1, exponent: 2 });
    assert_eq!(parse_amount("1e-3").unwrap(), Amount { negative: false, units: 1, exponent: -3 });
    assert_eq!(parse_amount("12.50e1").unwrap(), Amount { negative: false, units: 125, exponent: 0 });
    assert_eq!(parse_amount("0e99999999999999999999999999999").unwrap(), Amount { negative: false, units: 0, exponent: 0 });
    assert_eq!(
        parse_amount("1.0000000000000000000000000000000000000000").unwrap(),
        Amount { negative: false, units: 1, exponent: 0 }
    );
    assert_eq!(parse_amount("1e3").unwrap().to_currency_string(), "$1000.00");
    assert!(parse_amount("1e99999999999999999999999999999").is_err());
    assert_eq!(
        parse_amount("1e-99999999999999999999999999999").unwrap(),
        Amount { negative: false, units: 0, exponent: 0 }
    );
    let (_, a, _) = parse_trans("12/25/2024", "1e3", "Food").unwrap();
    assert_eq!(a.to_decimal_string(), "1000");
}

#[test]
fn amount_texts() {
    let a = parse_amount("100.5").unwrap();
    assert_eq!(a.to_currency_string(), "$100.50");
    assert_eq!(a.to_decimal_string(), "100.5");
    assert_eq!(parse_amount("-5").unwrap().to_currency_string(), "$-5.00");
    assert_eq!(parse_amount("2.345").unwrap().to_currency_string(), "$2.35");
    assert_eq!(parse_amount("2.3449").unwrap().to_currency_string(), "$2.34");
    assert_eq!(parse_amount("9.999").unwrap().to_currency_string(), "$10.00");
    assert_eq!(parse_amount("0.05").unwrap().to_decimal_string(), "0.05");
    assert_eq!(parse_amount("-0.0005").unwrap().to_decimal_string(), "-0.0005");
    assert_eq!(parse_amount("1234").unwrap().to_decimal_string(), "1234");
}

#[test]
fn dates_are_checked_and_shown_in_iso_form() {
    assert!(Date::new(2023, 2, 29).is_none());
    assert!(Date::new(2000, 2, 29).is_some());
    assert!(Date::new(1900, 2, 29).is_none());
    assert!(Date::new(2024, 4, 31).is_none());
    assert!(Date::new(2024, 13, 1).is_none());
    assert!(Date::new(400000, 1, 1).is_none());
    assert_eq!(Date::new(5, 3, 7).unwrap().to_iso_string(), "0005-03-07");
    assert_eq!(Date::new(12345, 6, 7).unwrap().to_iso_string(), "+12345-06-07");
    assert_eq!(Date::new(-4, 2, 29).unwrap().to_iso_string(), "-0004-02-29");
}

#[test]
fn add_appends_with_next_id() {
    let mut all: Vec<Transaction> = Vec::new();
    Transaction::add(&mut all, "01/15/2024", "25.50", "Food", None).unwrap();
    Transaction::add(&mut all, "01/16/2024", "30", "Transport", Some("bus".to_string())).unwrap();
    assert_eq!(all.len(), 2);
    assert_eq!(all[0].id, 1);
    assert_eq!(all[1].id, 2);
    assert_eq!(next_id(&all), 3);
    let err = Transaction::add(&mut all, "01/17/2024", "x", "Food", None).unwrap_err();
    assert_eq!(err, TransactionErr::AmountParse);
    assert_eq!(all.len(), 2);
}

#[test]
fn decimal_text_reads_back() {
    for raw in ["100.50", "-5", "0.0005", "-0", "123456789.000001", "7", "1e40", "2.5e-400", "-9.99e308"] {
        let a = parse_amount(raw).unwrap();
        assert_eq!(parse_amount(&a.to_decimal_string()).unwrap(), a, "{}", raw);
    }
}

#[test]
fn transactions_compare_by_content() {
    let a = Transaction::new(1, "01/15/2024", "25.50", "Food", Some("Lunch".to_string())).unwrap();
    let b = Transaction::new(1, "01/15/2024", "25.5", "food", Some("Lunch".to_string())).unwrap();
    let c = Transaction::new(1, "01/15/2024", "25.5", "food", None).unwrap();
    assert!(a == b);
    assert!(a != c);
}

#[test]
fn every_finite_decimal_parses() {
    assert_eq!(parse_amount("1e40").unwrap(), Amount { negative: false, units: 1, exponent: 40 });
    assert_eq!(
        parse_amount("1e40").unwrap().to_currency_string(),
        format!("$1{}.00", "0".repeat(40))
    );
    let long = format!("1.{}1", "0".repeat(38));
    assert_eq!(parse_amount(&long).unwrap(), Amount { negative: false, units: 1, exponent: 0 });
    let digits40 = "1234567890123456789012345678901234567890";
    assert_eq!(
        parse_amount(digits40).unwrap(),
        Amount { negative: false, units: 12345678901234567890123456789012345678, exponent: 2 }
    );
    assert!(parse_amount("1e308").is_ok());
    assert!(parse_amount("9.99e308").is_ok());
    assert!(parse_amount("1e309").is_err());
    assert!(parse_amount("-1e309").is_err());
    assert_eq!(parse_amount("1e-400").unwrap(), Amount { negative: false, units: 1, exponent: -400 });
    assert_eq!(parse_amount("1e-401").unwrap(), Amount { negative: false, units: 0, exponent: 0 });
    let (_, a, _) = parse_trans("12/25/2024", "1e40", "Food").unwrap();
    assert_eq!(a.to_decimal_string(), format!("1{}", "0".repeat(40)));
    assert!(Transaction::new(1, "12/25/2024", &long, "Food", None).is_ok());
}
