use string_randomizer::prettify_xml;
use string_randomizer::randomize_string;
use string_randomizer::App;

fn sorted_chars(s: &str) -> Vec<char> {
    let mut v: Vec<char> = s.chars().collect();
    v.sort();
    v
}

#[test]
fn shuffle_of_empty_is_empty() {
    assert_eq!(randomize_string(""), "");
}

#[test]
fn shuffle_of_one_char_is_itself() {
    assert_eq!(randomize_string("a"), "a");
}

#[test]
fn shuffle_is_a_permutation() {
    let input = "Hello World!";
    let out = randomize_string(input);
    assert_eq!(out.len(), input.len());
    assert_eq!(sorted_chars(&out), sorted_chars(input));
}

#[test]
fn shuffle_of_repeated_chars_is_a_permutation() {
    let input = "aabbbcc  cc";
    let out = randomize_string(input);
    assert_eq!(sorted_chars(&out), sorted_chars(input));
}

#[test]
fn default_state_holds_samples_and_their_results() {
    let app = App::default();
    assert_eq!(app.input, "Hello World!");
    assert_eq!(sorted_chars(&app.output), sorted_chars(&app.input));
    assert!(app.input_xml.starts_with("<Customers>"));
    assert_eq!(app.output_xml, prettify_xml(&app.input_xml).unwrap());
}

#[test]
fn default_sample_pretty_print_shape() {
    let app = App::default();
    assert!(app.output_xml.starts_with("<Customers>\n  <Customer>\n    <Number>1</Number>"));
    assert!(app.output_xml.ends_with("\n</Customers>"));
}
