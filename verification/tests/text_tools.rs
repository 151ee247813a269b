use nala::fetch_url::{html_to_text, page_text};
use nala::sentences::split_into_sentences;
use nala::url::{percent_decode_bytes, percent_encode};
use nala::web_search::{decode_ddg_redirect, format_results, parse_results, url_decode, urlencode, SearchResult};

#[test]
fn sentences_keep_their_punctuation_and_drop_blank_pieces() {
    assert_eq!(
        split_into_sentences("Hola. ¿Cómo estás?!  Bien... gracias"),
        vec!["Hola.".to_string(), "¿Cómo estás?!".to_string(), "Bien...".to_string(), "gracias".to_string()]
    );
    assert!(split_into_sentences("   ").is_empty());
    assert_eq!(split_into_sentences("...?"), vec!["...?".to_string()]);
}

#[test]
fn search_queries_are_form_encoded() {
    assert_eq!(urlencode("café con leche"), "caf%C3%A9+con+leche");
    assert_eq!(urlencode("a-b_c.d~e"), "a-b_c.d~e");
    assert_eq!(percent_encode("a b", false), "a%20b");
}

#[test]
fn url_decoding_undoes_encoding() {
    assert_eq!(url_decode("caf%C3%A9+con+leche"), "café con leche");
    assert_eq!(url_decode("100%"), "100");
    assert_eq!(url_decode("%zzok"), "ok");
    assert_eq!(url_decode("%+41"), "\u{4}1");
    assert_eq!(percent_decode_bytes("%41%42"), vec![b'A', b'B']);
}

#[test]
fn a_ddg_redirect_is_unwrapped() {
    assert_eq!(
        decode_ddg_redirect("//duckduckgo.com/l/?uddg=https%3A%2F%2Fexample.com%2Fa&rut=x"),
        "https://example.com/a"
    );
    assert_eq!(decode_ddg_redirect("https://example.com/plain"), "https://example.com/plain");
    assert_eq!(decode_ddg_redirect("https://example.com/?a=1"), "https://example.com/?a=1");
}

#[test]
fn results_pair_links_with_snippets() {
    let html = r#"<a class="result__a" href="//duckduckgo.com/l/?uddg=https%3A%2F%2Frust-lang.org&rut=1">The <b>Rust</b>   Language</a>
<a class="result__snippet" href="x">A  language <b>empowering</b> everyone</a>
<a class="result__a" href="https://example.com">Example</a>"#;
    let results = parse_results(html);
    assert_eq!(
        results,
        vec![SearchResult {
            title: "The Rust Language".to_string(),
            url: "https://rust-lang.org".to_string(),
            snippet: "A language empowering everyone".to_string(),
        }]
    );
    assert_eq!(
        format_results(&results),
        "1. The Rust Language — A language empowering everyone\n   https://rust-lang.org"
    );
}

#[test]
fn html_is_reduced_to_its_readable_text() {
    assert_eq!(
        html_to_text("<html><script>var x = 1;</script><style>p {}</style><p>Hola   <b>mundo</b></p></html>"),
        "Hola mundo"
    );
}

#[test]
fn long_pages_are_truncated() {
    let long = "a".repeat(4001);
    let text = page_text(&long);
    assert!(text.ends_with("\n\n[Contenido truncado.]"));
    assert_eq!(text.chars().count(), 4000 + "\n\n[Contenido truncado.]".chars().count());
    assert_eq!(page_text("<p>short</p>"), "short");
}

#[test]
fn decoding_an_encoded_value_gives_it_back() {
    for value in ["a b+c", "100% sure", "ñandú & café", "", "~._-", "línea\nnueva"] {
        assert_eq!(url_decode(&urlencode(value)), value);
    }
}

#[test]
fn a_punctuation_run_is_cut_only_where_another_character_follows() {
    assert_eq!(split_into_sentences("a.b"), vec!["a.".to_string(), "b".to_string()]);
    assert_eq!(split_into_sentences("a.. ."), vec!["a..".to_string(), ".".to_string()]);
    assert_eq!(split_into_sentences("no end"), vec!["no end".to_string()]);
}
