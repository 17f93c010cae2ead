use mirrord_steal::filter::{pattern_is_plain, HeaderFilter};

const TEXTS: [&str; 4] = ["", "a", "aa1", "x: a,1)"];

/// Makes a filter of every pattern of `length` symbols that starts with
/// `first`, and searches a few texts with each filter that comes of it.
/// Returns how many patterns were taken.
fn try_all(first: &str, symbols: &[&str], length: usize) -> usize {
    let mut taken = 0;
    let mut indices = vec![0usize; length - 1];
    loop {
        let mut pattern = String::from(first);
        for index in &indices {
            pattern.push_str(symbols[*index]);
        }
        if let Some(filter) = HeaderFilter::new(&pattern) {
            assert!(pattern_is_plain(&pattern));
            taken += 1;
            for text in TEXTS {
                filter.is_match(text);
            }
        }
        let mut place = 0;
        loop {
            if place == indices.len() {
                return taken;
            }
            indices[place] += 1;
            if indices[place] < symbols.len() {
                break;
            }
            indices[place] = 0;
            place += 1;
        }
    }
}

const WIDE: [&str; 20] = [
    "(", ")", "?", ":", "i", "\\", "1", "+", "*", "{", "}", ",", "a", "[", "]", "|", "^", "#", "x",
    "-",
];

const NARROW: [&str; 12] = ["(", ")", "?", ":", "i", "\\", "+", "{", "}", "1", ",", "a"];

#[test]
fn every_short_pattern_is_taken_or_turned_down() {
    let mut taken = 0;
    for first in WIDE {
        for length in 1..=3 {
            taken += try_all(first, &WIDE, length);
        }
    }
    assert!(taken > 0);
}

#[test]
fn patterns_that_open_a_group_are_taken_or_turned_down() {
    assert!(try_all("(", &WIDE, 4) > 0);
    assert!(try_all("(?", &WIDE, 4) > 0);
    assert_eq!(try_all("(?(", &WIDE, 4), 0);
}

#[test]
fn patterns_that_start_with_an_escape_are_taken_or_turned_down() {
    assert!(try_all("\\", &WIDE, 4) > 0);
    assert!(try_all("a\\", &WIDE, 4) > 0);
}

#[test]
fn patterns_that_start_with_a_count_are_taken_or_turned_down() {
    assert!(try_all("a{", &WIDE, 4) > 0);
    assert!(try_all("a{1", &WIDE, 4) > 0);
    assert!(try_all("(a){1,", &WIDE, 4) > 0);
}

#[test]
fn longer_patterns_of_few_symbols_are_taken_or_turned_down() {
    for first in ["(", "a", "\\", "{", "?"] {
        try_all(first, &NARROW, 5);
    }
}

const FANCY: [&str; 20] = [
    "(", ")", "?", "<", ">", "=", "!", "P", "'", "k", "\\", "a", "1", "#", ":", "-", "U", "m", "s",
    "x",
];

#[test]
fn patterns_of_the_other_kinds_are_turned_down_or_harmless() {
    assert!(try_all("(", &FANCY, 4) > 0);
    assert!(try_all("(?", &FANCY, 4) > 0);
    assert!(try_all("(a)\\", &FANCY, 3) > 0);
    assert_eq!(try_all("(?<", &FANCY, 4), 0);
    assert_eq!(try_all("(?P", &FANCY, 4), 0);
    assert_eq!(try_all("(?=", &FANCY, 4), 0);
    assert_eq!(try_all("(?x", &FANCY, 4), 0);
    assert_eq!(try_all("(?#", &FANCY, 4), 0);
}
