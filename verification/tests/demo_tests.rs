use exercises::coins::{value_in_cents, Coin, UsState};
use exercises::demos::{
    build_user, build_user_improved, calculate_length, change, dangle, fib, first_word, iterating,
    multiple_types, ownership, plus_one, updating, SpreadsheetCell,
};
use exercises::generics::{largest, largest_char, largest_func, largest_i32, Different_Point, Point};
use exercises::guessing::{check_guess, custom_types_2, new_secret, Guess, GuessOutcome};
use exercises::rectangles::{area, Rectangle};
use exercises::restaurant::{add_to_waitlist, eat_at_restaurant, Appetizer, Breakfast};
use exercises::summary::{notify, NewsArticle, Summary, Tweet};

#[test]
fn coin_values() {
    assert_eq!(value_in_cents(Coin::Penny), 1);
    assert_eq!(value_in_cents(Coin::Nickel), 5);
    assert_eq!(value_in_cents(Coin::Dime), 10);
    assert_eq!(value_in_cents(Coin::Quarter(UsState::Alaska)), 25);
}

#[test]
fn plus_one_increments() {
    assert_eq!(plus_one(5), 6);
    assert_eq!(plus_one(-1), 0);
}

#[test]
fn fibonacci_numbers() {
    assert_eq!(fib(0), 0);
    assert_eq!(fib(1), 1);
    assert_eq!(fib(2), 1);
    assert_eq!(fib(10), 55);
    assert_eq!(fib(50), 12586269025);
}

#[test]
fn iterating_raises_each_element_by_fifty() {
    let mut v: Vec<i32> = vec![100, 32, 57];
    iterating(&mut v);
    assert_eq!(v, vec![150, 82, 107]);
}

#[test]
fn largest_of_each_kind() {
    let numbers: Vec<i32> = vec![34, 50, 25, 100, 65];
    assert_eq!(largest_i32(&numbers), 100);
    assert_eq!(largest_func(&numbers), 100);
    assert_eq!(largest(&numbers), 100);
    let chars: Vec<char> = vec!['y', 'm', 'a', 'q'];
    assert_eq!(largest_char(&chars), 'y');
    assert_eq!(largest(&chars), 'y');
}

#[test]
fn rectangle_area_and_containment() {
    let rect1 = Rectangle { width: 30, height: 50 };
    assert_eq!(rect1.area(), 1500);
    assert_eq!(area(&rect1), 1500);
    let rect2 = Rectangle { width: 10, height: 40 };
    let rect3 = Rectangle { width: 60, height: 45 };
    // both of the holder's sides are compared against the other's height
    assert!(!rect1.can_hold(&rect2));
    assert!(!rect2.can_hold(&rect1));
    assert!(rect3.can_hold(&rect2));
    assert!(rect1.can_hold(&Rectangle { width: 100, height: 20 }));
    let sq = Rectangle::square(3);
    assert_eq!(sq, Rectangle { width: 3, height: 3 });
    assert_eq!(sq.area(), 9);
}

#[test]
fn first_word_stops_at_the_first_space() {
    let s = String::from("hello world");
    assert_eq!(first_word(&s), "hello");
    let s2 = String::from("hello");
    assert_eq!(first_word(&s2), "hello");
    let s3 = String::from(" leading");
    assert_eq!(first_word(&s3), "");
}

#[test]
fn change_appends_world() {
    let mut s = String::from("hello");
    change(&mut s);
    assert_eq!(s, String::from("hello, world"));
}

#[test]
fn calculate_length_counts_bytes() {
    let s = String::from("hello");
    assert_eq!(calculate_length(&s), 5);
}

#[test]
fn dangle_returns_an_owned_string() {
    assert_eq!(dangle(), String::from("hello"));
}

#[test]
fn updating_grows_a_string() {
    assert_eq!(updating(), String::from("foobar"));
}

#[test]
fn ownership_moves_strings_into_the_map() {
    let d = ownership();
    assert_eq!(
        d.department_of(&String::from("Favorite color")),
        Some(String::from("Blue"))
    );
}

#[test]
fn a_row_can_hold_cells_of_different_kinds() {
    let row = multiple_types();
    assert_eq!(row.len(), 2);
    assert!(matches!(row[0], SpreadsheetCell::Int(3)));
    match &row[1] {
        SpreadsheetCell::Text(t) => assert_eq!(*t, String::from("blue")),
        _ => panic!("expected a text cell"),
    }
}

#[test]
fn built_users_start_active_with_one_sign_in() {
    let u = build_user(String::from("someone@example.com"), String::from("someusername123"));
    assert_eq!(u.email, String::from("someone@example.com"));
    assert_eq!(u.username, String::from("someusername123"));
    assert!(u.active);
    assert_eq!(u.sign_in_count, 1);
    let u2 = build_user_improved(String::from("a@b.c"), String::from("ab"));
    assert_eq!(u2.email, String::from("a@b.c"));
    assert_eq!(u2.username, String::from("ab"));
    assert!(u2.active);
    assert_eq!(u2.sign_in_count, 1);
}

#[test]
fn points_and_mixup() {
    let p = Point { x: 5, y: 10 };
    assert_eq!(*p.x(), 5);
    let p1 = Different_Point { x: 5, y: 10 };
    let p2 = Different_Point { x: "Hello", y: 'c' };
    let p3 = p1.mixup(p2);
    assert_eq!(p3.x, 5);
    assert_eq!(p3.y, 'c');
}

#[test]
fn summaries_and_notification() {
    let tweet = Tweet {
        username: String::from("horse_ebooks"),
        content: String::from("of course, as you probably already know, people"),
        reply: false,
        retweet: false,
    };
    assert_eq!(
        tweet.summarize(),
        String::from("horse_ebooks: of course, as you probably already know, people")
    );
    assert_eq!(
        notify(&tweet),
        String::from(
            "Breaking news! horse_ebooks: of course, as you probably already know, people"
        )
    );
    let article = NewsArticle {
        headline: String::from("Penguins win the Stanley Cup Championship!"),
        location: String::from("Pittsburgh, PA, USA"),
        author: String::from("Iceburgh"),
        content: String::from("The Pittsburgh Penguins once again are the best team."),
    };
    assert_eq!(
        article.summarize(),
        String::from("Penguins win the Stanley Cup Championship!, by Iceburgh (Pittsburgh, PA, USA)")
    );
}

#[test]
fn breakfast_and_appetizers() {
    add_to_waitlist();
    let meal = Breakfast::summer("Rye");
    assert_eq!(meal.toast, String::from("Rye"));
    assert_eq!(eat_at_restaurant(), String::from("Wheat"));
    let _order1 = Appetizer::Soup;
    let _order2 = Appetizer::Salad;
}

#[test]
fn guesses_are_validated() {
    assert!(custom_types_2(0).is_none());
    assert!(custom_types_2(101).is_none());
    assert!(custom_types_2(-7).is_none());
    let g = custom_types_2(42).unwrap();
    assert_eq!(g.value(), 42);
    let g2 = Guess::new(100);
    assert_eq!(g2.value(), 100);
}

#[test]
fn guesses_compare_against_the_secret() {
    let g = Guess::new(50);
    assert_eq!(check_guess(&g, 60), GuessOutcome::TooSmall);
    assert_eq!(check_guess(&g, 40), GuessOutcome::TooBig);
    assert_eq!(check_guess(&g, 50), GuessOutcome::Win);
}

#[test]
fn secrets_stay_between_one_and_one_hundred() {
    for _ in 0..200 {
        let secret = new_secret();
        assert!(1 <= secret && secret <= 100);
    }
}
