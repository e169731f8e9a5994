use exercises::pig_latin::{
    consonant_conversion, convert_sentence, convert_word, first_letter_consonant, pig_latin_text,
    vowel_conversion,
};
use exercises::strutil::{sort_strings, str_leq};

#[test]
fn first_becomes_irst_fay() {
    assert_eq!(convert_word("first"), String::from("irst-fay"));
    assert_eq!(consonant_conversion("first"), String::from("irst-fay"));
}

#[test]
fn apple_becomes_apple_hay() {
    assert_eq!(convert_word("apple"), String::from("apple-hay"));
    assert_eq!(vowel_conversion("apple"), String::from("apple-hay"));
}

#[test]
fn consonant_detection() {
    assert!(first_letter_consonant("first"));
    assert!(!first_letter_consonant("apple"));
    assert!(!first_letter_consonant("under"));
    assert!(!first_letter_consonant(""));
    // an uppercase vowel counts as a consonant here
    assert!(first_letter_consonant("Apple"));
}

#[test]
fn single_letter_words() {
    assert_eq!(convert_word("a"), String::from("a-hay"));
    assert_eq!(convert_word("b"), String::from("-bay"));
}

#[test]
fn empty_word_gets_hay() {
    assert_eq!(convert_word(""), String::from("-hay"));
}

#[test]
fn sentences_get_a_space_before_each_word() {
    let words: Vec<String> = vec![String::from("first"), String::from("apple")];
    assert_eq!(convert_sentence(&words), String::from(" irst-fay apple-hay"));
}

#[test]
fn text_is_split_on_whitespace_and_converted() {
    assert_eq!(
        pig_latin_text("first apple"),
        String::from(" irst-fay apple-hay")
    );
    assert_eq!(
        pig_latin_text("Mama raise no"),
        String::from(" ama-May aise-ray o-nay")
    );
    assert_eq!(pig_latin_text(""), String::from(""));
    // several spaces separate the same words
    assert_eq!(
        pig_latin_text("  first   apple "),
        String::from(" irst-fay apple-hay")
    );
}

#[test]
fn string_order_is_lexicographic() {
    assert!(str_leq("Amir", "Mona"));
    assert!(!str_leq("Zoe", "Amir"));
    assert!(str_leq("abc", "abc"));
    assert!(str_leq("ab", "abc"));
    assert!(!str_leq("abc", "ab"));
    assert!(str_leq("", "a"));
    // uppercase letters come before lowercase ones in code-point order
    assert!(str_leq("Zoe", "amir"));
}

#[test]
fn sorting_strings_is_alphabetical() {
    let names: Vec<String> = vec![
        String::from("Zoe"),
        String::from("Amir"),
        String::from("Mona"),
        String::from("Amir"),
    ];
    assert_eq!(
        sort_strings(&names),
        vec![
            String::from("Amir"),
            String::from("Amir"),
            String::from("Mona"),
            String::from("Zoe"),
        ]
    );
    // the input itself is unchanged
    assert_eq!(names[0], String::from("Zoe"));
}
