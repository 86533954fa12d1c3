use clojure_core::eval::load::{load_eval_error_message, load_read_error_message};
use clojure_core::reader::source::fits_counters;

#[test]
fn load_error_messages_number_the_form() {
    assert_eq!(
        load_read_error_message(3, 7, 12, "EOF while reading"),
        "load: reader error on form #3 at 7:12: EOF while reading"
    );
    assert_eq!(load_eval_error_message(0, "boom"), "load: eval error on form #0: boom");
}

#[test]
fn ordinary_texts_fit_the_counters() {
    assert!(fits_counters(""));
    assert!(fits_counters("(a)\n(b)\n"));
    let long_line = "x".repeat(100_000);
    assert!(fits_counters(&long_line));
}
