use ppl::runtime::rational::decimal_point_text;

#[test]
fn decimal_texts() {
    // 5/1: no scaling
    assert_eq!(decimal_point_text("5", 0), "5.0");
    // 1/2 = 5/10
    assert_eq!(decimal_point_text("5", 1), "0.5");
    // 5/2 = 25/10
    assert_eq!(decimal_point_text("25", 1), "2.5");
    // 1/4 = 25/100
    assert_eq!(decimal_point_text("25", 2), "0.25");
    // 1/8 = 125/1000
    assert_eq!(decimal_point_text("125", 3), "0.125");
    // 1/16 = 625/10000
    assert_eq!(decimal_point_text("625", 4), "0.0625");
}

#[test]
fn decimal_text_edges() {
    assert_eq!(decimal_point_text("", 0), "0.0");
    assert_eq!(decimal_point_text("1234", 2), "12.34");
    assert_eq!(decimal_point_text("-5", 1), "-.5");
}
