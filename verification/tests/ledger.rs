use expense_ledger::codec::split_line;
use expense_ledger::ledger::{ExpenseTracker, Reading};
use expense_ledger::record::Expense;

fn reading(line: &str) -> Reading {
    let amount = split_line(line).and_then(|f| f.amount.parse::<f32>().ok()).map(f32::to_bits);
    Reading { line: line.to_string(), amount }
}

fn loaded(lines: &[&str]) -> ExpenseTracker {
    let mut t = ExpenseTracker::new("expenses.txt".to_string());
    let readings: Vec<Reading> = lines.iter().map(|l| reading(l)).collect();
    t.load_expenses(&readings);
    t
}

fn ids(t: &ExpenseTracker) -> Vec<i32> {
    t.list_expenses().iter().map(|e| e.id).collect()
}

fn total(t: &ExpenseTracker, month: Option<u32>) -> f32 {
    let mut sum: f32 = 0.0;
    for a in t.amounts_for(month) {
        sum += f32::from_bits(a);
    }
    sum
}

fn add(t: &mut ExpenseTracker, date: &str, description: &str, amount: f32) -> i32 {
    assert!(t.has_room());
    t.add_dated(date.to_string(), description.to_string(), amount.to_bits())
}

#[test]
fn a_new_ledger_is_empty() {
    let t = ExpenseTracker::new("expenses.txt".to_string());
    assert!(t.list_expenses().is_empty());
    assert_eq!(t.next_id(), 1);
    assert!(t.has_room());
    assert_eq!(t.file_name(), "expenses.txt");
    assert_eq!(t.amounts_for(None), Vec::<u32>::new());
    assert_eq!(total(&t, None), 0.0);
    assert_eq!(total(&t, Some(1)), 0.0);
}

#[test]
fn loading_no_lines_leaves_the_ledger_empty() {
    let t = loaded(&[]);
    assert!(t.list_expenses().is_empty());
    assert_eq!(t.next_id(), 1);
    assert_eq!(total(&t, None), 0.0);
}

#[test]
fn the_next_number_is_one_above_the_largest_loaded() {
    let mut t = loaded(&["3 2024-01-01 a|1", "7 2024-01-02 b|2", "1 2024-01-03 c|3"]);
    assert_eq!(ids(&t), vec![3, 7, 1]);
    assert_eq!(t.next_id(), 8);
    let id = add(&mut t, "2024-01-04", "d", 4.0);
    assert_eq!(id, 8);
    assert_eq!(t.next_id(), 9);
    assert_eq!(ids(&t), vec![3, 7, 1, 8]);
}

#[test]
fn a_deleted_number_is_not_given_out_again() {
    let mut t = loaded(&["4 2024-01-01 a|1", "5 2024-01-02 b|2"]);
    assert!(t.delete_expense(5));
    assert_eq!(t.next_id(), 6);
    let id = add(&mut t, "2024-01-03", "c", 3.0);
    assert_eq!(id, 6);
    assert_eq!(ids(&t), vec![4, 6]);
    assert!(t.delete_expense(6));
    let again = add(&mut t, "2024-01-04", "d", 4.0);
    assert_eq!(again, 7);
}

#[test]
fn a_malformed_line_is_passed_over() {
    let t = loaded(&["1 2024-01-01 Coffee|3.50", "garbage line", "2 2024-01-02 Lunch|12.00"]);
    let all = t.list_expenses();
    assert_eq!(all.len(), 2);
    assert_eq!(
        all[0],
        Expense {
            id: 1,
            date: "2024-01-01".to_string(),
            description: "Coffee".to_string(),
            amount: 3.5f32.to_bits(),
        }
    );
    assert_eq!(
        all[1],
        Expense {
            id: 2,
            date: "2024-01-02".to_string(),
            description: "Lunch".to_string(),
            amount: 12.0f32.to_bits(),
        }
    );
    assert_eq!(t.next_id(), 3);
}

#[test]
fn a_line_cut_by_tabs_is_read() {
    let t = loaded(&["1\t2024-01-01\tCoffee|3.50"]);
    assert_eq!(
        t.list_expenses(),
        &vec![Expense {
            id: 1,
            date: "2024-01-01".to_string(),
            description: "Coffee".to_string(),
            amount: 3.5f32.to_bits(),
        }]
    );
    assert_eq!(t.next_id(), 2);
}

#[test]
fn a_line_whose_amount_is_no_number_is_passed_over() {
    let t = loaded(&["9 2024-01-01 Coffee|much", "2 2024-01-02 Lunch|12.00", "x 2024-01-02 Tea|1"]);
    assert_eq!(ids(&t), vec![2]);
    assert_eq!(t.next_id(), 3);
}

#[test]
fn amounts_are_chosen_by_month() {
    let t = loaded(&["1 2024-01-15 a|10", "2 2024-02-01 b|20", "3 2024-01-31 c|5"]);
    assert_eq!(t.amounts_for(Some(1)), vec![10.0f32.to_bits(), 5.0f32.to_bits()]);
    assert_eq!(t.amounts_for(Some(2)), vec![20.0f32.to_bits()]);
    assert_eq!(
        t.amounts_for(None),
        vec![10.0f32.to_bits(), 20.0f32.to_bits(), 5.0f32.to_bits()]
    );
    assert_eq!(t.amounts_for(Some(3)), Vec::<u32>::new());
    assert_eq!(total(&t, Some(1)), 15.0);
    assert_eq!(total(&t, Some(2)), 20.0);
    assert_eq!(total(&t, None), 35.0);
    assert_eq!(total(&t, Some(3)), 0.0);
}

#[test]
fn a_date_without_a_month_counts_for_no_month() {
    let t = loaded(&["1 someday a|10", "2 2024-1-5 b|20", "3 2024-03-01 c|5"]);
    for m in 1..=12u32 {
        let expected: f32 = if m == 3 { 5.0 } else { 0.0 };
        assert_eq!(total(&t, Some(m)), expected);
    }
    assert_eq!(total(&t, None), 35.0);
    assert_eq!(t.amounts_for(Some(0)), vec![10.0f32.to_bits(), 20.0f32.to_bits()]);
}

#[test]
fn deleting_a_number_that_is_there_takes_one_expense_out() {
    let mut t = loaded(&["1 2024-01-01 a|1", "2 2024-01-02 b|2", "3 2024-01-03 c|3"]);
    assert!(t.delete_expense(2));
    assert_eq!(ids(&t), vec![1, 3]);
    assert_eq!(t.list_expenses()[1].description, "c");
    assert_eq!(t.next_id(), 4);
}

#[test]
fn deleting_a_number_that_is_not_there_changes_nothing() {
    let mut t = loaded(&["1 2024-01-01 a|1", "2 2024-01-02 b|2"]);
    let before: Vec<Expense> = t.list_expenses().clone();
    assert!(!t.delete_expense(3));
    assert!(!t.delete_expense(0));
    assert!(!t.delete_expense(-1));
    assert_eq!(t.list_expenses(), &before);
    assert_eq!(t.next_id(), 3);
}

#[test]
fn deleting_takes_the_first_of_two_with_one_number() {
    let mut t = loaded(&["1 2024-01-01 first|1", "2 2024-01-02 b|2", "1 2024-01-03 second|3"]);
    assert!(t.delete_expense(1));
    assert_eq!(ids(&t), vec![2, 1]);
    assert_eq!(t.list_expenses()[1].description, "second");
    assert!(t.delete_expense(1));
    assert_eq!(ids(&t), vec![2]);
    assert!(!t.delete_expense(1));
}

#[test]
fn numbers_below_one_do_not_lower_the_next_number() {
    let t = loaded(&["-5 2024-01-01 a|1", "0 2024-01-02 b|2"]);
    assert_eq!(ids(&t), vec![-5, 0]);
    assert_eq!(t.next_id(), 1);
}

#[test]
fn the_largest_number_leaves_no_room() {
    let t = loaded(&["2147483647 2024-01-01 a|1"]);
    assert_eq!(t.next_id(), 2147483648);
    assert!(!t.has_room());
    let u = loaded(&["2147483646 2024-01-01 a|1"]);
    assert_eq!(u.next_id(), 2147483647);
    assert!(u.has_room());
}

#[test]
fn loading_again_adds_to_what_is_there() {
    let mut t = loaded(&["5 2024-01-01 a|1"]);
    let id = add(&mut t, "2024-01-02", "b", 2.0);
    assert_eq!(id, 6);
    t.load_expenses(&vec![reading("2 2024-01-03 c|3"), reading("nothing here")]);
    assert_eq!(ids(&t), vec![5, 6, 2]);
    assert_eq!(t.next_id(), 7);
    t.load_expenses(&vec![reading("10 2024-01-03 d|4")]);
    assert_eq!(t.next_id(), 11);
}

#[test]
fn an_added_expense_is_kept_as_given() {
    let mut t = ExpenseTracker::new("ledger.txt".to_string());
    let id = add(&mut t, "2024-07-04", "  Fireworks | big  ", -3.25);
    assert_eq!(id, 1);
    assert_eq!(
        t.list_expenses(),
        &vec![Expense {
            id: 1,
            date: "2024-07-04".to_string(),
            description: "  Fireworks | big  ".to_string(),
            amount: (-3.25f32).to_bits(),
        }]
    );
    assert_eq!(t.file_name(), "ledger.txt");
}

#[test]
fn an_expense_added_now_is_dated_today() {
    let mut t = ExpenseTracker::new("expenses.txt".to_string());
    assert!(t.has_room());
    let id = t.add_expense("Coffee".to_string(), 3.5f32.to_bits());
    assert_eq!(id, 1);
    assert_eq!(t.next_id(), 2);
    let all = t.list_expenses();
    assert_eq!(all.len(), 1);
    assert_eq!(all[0].id, 1);
    assert_eq!(all[0].description, "Coffee");
    assert_eq!(all[0].amount, 3.5f32.to_bits());
    let date: Vec<char> = all[0].date.chars().collect();
    assert_eq!(date.len(), 10);
    for (i, c) in date.iter().enumerate() {
        if i == 4 || i == 7 {
            assert_eq!(*c, '-');
        } else {
            assert!(c.is_ascii_digit());
        }
    }
    let month: u32 = all[0].date[5..7].parse().unwrap();
    assert!((1..=12).contains(&month));
    assert_eq!(t.amounts_for(Some(month)), vec![3.5f32.to_bits()]);
}
