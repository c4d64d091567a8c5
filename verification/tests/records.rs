use py_interop::account::AccountWithHistory;
use py_interop::people::{Employee, Manager, Person};
use py_interop::rectangle::Rectangle;
use py_interop::season::{
    is_earlier, validate_season_dates, DiscountExpired, SeasonError, SeasonalWindow, Timestamp,
};
use py_interop::shopping::{OrderError, ShoppingOrder};

#[test]
fn shopping_order_accepts_valid_fields() {
    let mut order = ShoppingOrder::new("apple".to_string(), Some(3), Some(2)).unwrap();
    assert_eq!(order.name(), "apple");
    assert_eq!(order.price(), 3);
    assert_eq!(order.quantity(), 2);
    order.set_quantity(0);
    assert_eq!(order.quantity(), 0);
}

#[test]
fn shopping_order_checks_in_order() {
    let err = |name: &str, p: Option<u64>, q: Option<u64>| {
        ShoppingOrder::new(name.to_string(), p, q).err()
    };
    assert_eq!(err("", None, None), Some(OrderError::PriceNegative));
    assert_eq!(err("", Some(0), None), Some(OrderError::PriceZero));
    assert_eq!(err("", Some(1), None), Some(OrderError::QuantityNegative));
    assert_eq!(err("", Some(1), Some(0)), Some(OrderError::QuantityZero));
    assert_eq!(err("", Some(1), Some(1)), Some(OrderError::NameEmpty));
    assert_eq!(err(" a ", Some(1), Some(1)), None);
}

#[test]
fn shopping_order_accepts_any_non_empty_name() {
    let order = ShoppingOrder::new("  ".to_string(), Some(1), Some(1)).unwrap();
    assert_eq!(order.name(), "  ");
    assert!(ShoppingOrder::new(" \t\n".to_string(), Some(1), Some(1)).is_ok());
    assert!(ShoppingOrder::new("\u{3000}".to_string(), Some(1), Some(1)).is_ok());
}

#[test]
fn people_names() {
    let p = Person::new("Ada".to_string(), "Lovelace".to_string());
    assert_eq!(p.full_name(), "Ada Lovelace");
    let e = Employee::new("Grace".to_string(), "Hopper".to_string(), 7);
    assert_eq!(e.person.full_name(), "Grace Hopper");
    assert_eq!(e.id, 7);
    let m = Manager::new("Alan".to_string(), "Turing".to_string(), 9, "Head".to_string());
    assert_eq!(m.employee.person.first_name, "Alan");
    assert_eq!(m.employee.person.last_name, "Turing");
    assert_eq!(m.employee.id, 9);
    assert_eq!(m.title, "Head");
}

#[test]
fn rectangle_area() {
    let r = Rectangle::new(3, 4);
    assert_eq!(r.area(), 12);
    assert_eq!(Rectangle::new(0, 9).area(), 0);
    assert_eq!(Rectangle::new(65535, 65537).area(), 4294967295);
}

fn at(secs: i64) -> Timestamp {
    Timestamp { secs, nanos: 0 }
}

#[test]
fn instants_compare_by_seconds_then_nanoseconds() {
    assert!(is_earlier(&at(0), &at(1)));
    assert!(!is_earlier(&at(1), &at(1)));
    assert!(!is_earlier(&at(2), &at(1)));
    assert!(is_earlier(&Timestamp { secs: 5, nanos: 1 }, &Timestamp { secs: 5, nanos: 2 }));
    assert!(!is_earlier(&Timestamp { secs: 5, nanos: 2 }, &Timestamp { secs: 5, nanos: 2 }));
    assert!(is_earlier(&at(-1), &at(0)));
}

#[test]
fn season_dates_compare_instants() {
    // 10:00 to 12:00 on the same day.
    assert_eq!(validate_season_dates(&at(36000), &at(43200)), Ok(()));
    assert_eq!(validate_season_dates(&at(0), &at(86400)), Ok(()));
    assert_eq!(
        validate_season_dates(&Timestamp { secs: 7, nanos: 1 }, &Timestamp { secs: 7, nanos: 2 }),
        Ok(())
    );
    assert_eq!(
        validate_season_dates(&at(43200), &at(43200)),
        Err(SeasonError::StartNotBeforeEnd)
    );
    assert_eq!(
        validate_season_dates(&at(86400), &at(0)),
        Err(SeasonError::StartNotBeforeEnd)
    );
}

#[test]
fn seasonal_window_keeps_its_order() {
    assert!(SeasonalWindow::new(at(200), at(100)).is_err());
    assert!(SeasonalWindow::new(at(100), at(100)).is_err());
    let mut w = SeasonalWindow::new(at(0), at(10 * 86400)).unwrap();
    assert_eq!(w.set_from(at(10 * 86400)), Err(SeasonError::StartNotBeforeEnd));
    assert_eq!(w.from_(), at(0));
    assert_eq!(w.set_to(at(0)), Err(SeasonError::StartNotBeforeEnd));
    assert_eq!(w.to(), at(10 * 86400));
    assert_eq!(w.set_from(at(86400)), Ok(()));
    assert_eq!(w.from_(), at(86400));
    assert_eq!(w.set_to(at(86401)), Ok(()));
    assert_eq!(w.to(), at(86401));
}

#[test]
fn seasonal_window_expiry() {
    let w = SeasonalWindow::new(at(0), Timestamp { secs: 86400, nanos: 5 }).unwrap();
    assert!(!w.is_expired_at(&Timestamp { secs: 86400, nanos: 5 }));
    assert!(w.is_expired_at(&Timestamp { secs: 86400, nanos: 6 }));
    assert!(w.is_expired_at(&at(86401)));
    assert!(!w.is_expired_at(&at(0)));
    assert!(w.is_expired_at(&Timestamp { secs: -1, nanos: 999_999_999 }));
    // A period that ended in 1970 has expired now.
    let (answer, now) = w.check_active();
    assert_eq!(answer, Err(DiscountExpired));
    assert!(now.secs > 86400);
    let current = SeasonalWindow::new(at(0), at(i64::MAX / 2)).unwrap();
    assert_eq!(current.check_active().0, Ok(()));
}

#[test]
fn seasonal_window_refuses_before_its_start() {
    let w = SeasonalWindow::new(at(864000), at(1728000)).unwrap();
    assert_eq!(w.check_active_at(&at(0)), Err(DiscountExpired));
    assert_eq!(w.check_active_at(&at(863999)), Err(DiscountExpired));
    assert_eq!(w.check_active_at(&at(864000)), Ok(()));
    assert_eq!(w.check_active_at(&at(1728000)), Ok(()));
    assert_eq!(w.check_active_at(&at(1728001)), Err(DiscountExpired));
    // A period that starts far in the future has not begun now.
    let later = SeasonalWindow::new(at(i64::MAX / 2), at(i64::MAX)).unwrap();
    assert_eq!(later.check_active().0, Err(DiscountExpired));
}

#[test]
fn account_history_keeps_replaced_balances() {
    let mut account = AccountWithHistory::new(10.0f64);
    assert_eq!(account.get_balance(), 10.0);
    assert!(account.history().is_empty());
    account.set_balance(25.5);
    account.set_balance(3.0);
    assert_eq!(account.get_balance(), 3.0);
    assert_eq!(account.history(), vec![10.0, 25.5]);
}

#[test]
fn period_ending_at_the_last_instant_is_never_expired() {
    let w = SeasonalWindow::new(at(0), Timestamp { secs: i64::MAX, nanos: u32::MAX }).unwrap();
    assert_eq!(w.check_active().0, Ok(()));
    assert!(!w.is_expired_at(&Timestamp { secs: i64::MAX, nanos: u32::MAX }));
}
