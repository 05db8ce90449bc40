use michaelator::quote::{quote_at, rand_quote, QUOTE_COUNT};

#[test]
fn the_quotes() {
    assert_eq!(QUOTE_COUNT, 2);
    assert_eq!(quote_at(0), "Made with love!");
    assert_eq!(quote_at(1), "57% coffee");
}

#[test]
fn a_quote_drawn_by_chance_is_one_of_the_quotes() {
    for _ in 0..200 {
        let q = rand_quote();
        assert!(q == quote_at(0) || q == quote_at(1), "{:?}", q);
    }
}

#[test]
fn every_quote_is_drawn_sooner_or_later() {
    let mut seen = [false; 2];
    for _ in 0..2000 {
        let q = rand_quote();
        for i in 0..QUOTE_COUNT {
            if q == quote_at(i) {
                seen[i] = true;
            }
        }
    }
    assert_eq!(seen, [true, true]);
}
