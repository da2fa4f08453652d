use wiki_game::wiki::{starts_with, to_full_wiki_url, to_relative_wiki_url};

#[test]
fn to_relative_wiki_url_test() {
    let target = String::from("/wiki/Pokémon");
    let base_url = String::from("https://en.wikipedia.org");

    let complete_url = String::from("https://en.wikipedia.org/wiki/Pokémon");
    let result = to_relative_wiki_url(&complete_url, &base_url);
    assert_eq!(result, target);

    let wiki_url = String::from("/wiki/Pokémon");
    let result = to_relative_wiki_url(&wiki_url, &base_url);
    assert_eq!(result, target);

    let partial_wiki_url = String::from("Pokémon");
    let result = to_relative_wiki_url(&partial_wiki_url, &base_url);
    assert_eq!(result, target);
}

#[test]
fn to_complete_wiki_url_test() {
    let target = String::from("https://en.wikipedia.org/wiki/Pokémon");
    let base_url = String::from("https://en.wikipedia.org");

    let already_complete_url = String::from("https://en.wikipedia.org/wiki/Pokémon");
    let incomplete_url_with_prefix = String::from("/wiki/Pokémon");
    let incomplete_url_without_prefix_with_slash = String::from("/Pokémon");
    let incomplete_url_without_prefix_without_slash = String::from("Pokémon");

    let result = to_full_wiki_url(&already_complete_url, &base_url);
    assert_eq!(result, target);

    let result = to_full_wiki_url(&incomplete_url_with_prefix, &base_url);
    assert_eq!(result, target);

    let result = to_full_wiki_url(&incomplete_url_without_prefix_with_slash, &base_url);
    assert_eq!(result, target);

    let result = to_full_wiki_url(&incomplete_url_without_prefix_without_slash, &base_url);
    assert_eq!(result, target);
}

#[test]
fn relative_form_splices_wiki_after_slash() {
    let base = String::from("https://en.wikipedia.org");
    assert_eq!(to_relative_wiki_url("/Pokémon", &base), "/wiki/Pokémon");
}

#[test]
fn round_trip_through_relative_form() {
    let base = String::from("https://x");
    for x in ["https://x/wiki/Tée", "/wiki/Tée", "/Tée", "Tée"] {
        let rel = to_relative_wiki_url(x, &base);
        assert_eq!(to_full_wiki_url(&rel, &base), to_full_wiki_url(x, &base));
        assert_eq!(to_full_wiki_url(x, &base), "https://x/wiki/Tée");
    }
}

#[test]
fn prefix_test_on_characters() {
    assert!(starts_with("/wiki/A", "/wiki/"));
    assert!(starts_with("abc", ""));
    assert!(!starts_with("/wik", "/wiki/"));
    assert!(!starts_with("/other", "/wiki/"));
}
