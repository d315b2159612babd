//! Whole-pipeline behavior on constructed result pages, run against the
//! real markup library.

use wordreference::ParseError;
use wordreference::parse;
use wordreference::parse_entry;

fn sense_row(class: &str, word: &str, def: &str, to: &str) -> String {
    format!(
        "<tr class=\"{class}\"><td class=\"FrWrd\"><strong>{word}</strong><em>nf</em></td><td>({def})</td><td class=\"ToWrd\">{to}<em>n</em></td></tr>"
    )
}

fn example_row(class: &str, fr: &str, to: &str) -> String {
    format!(
        "<tr class=\"{class}\"><td class=\"FrEx\"><span>{fr}</span></td><td class=\"ToEx\"><span>{to}</span></td></tr>"
    )
}

fn page(tables: &[&str]) -> String {
    let mut s = String::from("<html><body>");
    for t in tables {
        s.push_str("<table class=\"WRD noTapHighlight\">");
        s.push_str(t);
        s.push_str("</table>");
    }
    s.push_str("</body></html>");
    s
}

#[test]
fn three_senses_yield_three_definitions() {
    let body = [
        sense_row("even", "casa", "vivienda", "house"),
        example_row("even", "Mi casa es grande.", "My house is big."),
        sense_row("odd", "casa", "linaje", "lineage"),
        sense_row("even", "casa", "empresa", "firm"),
    ]
    .concat();
    let res = parse(&page(&[&body])).expect("three senses expected");
    assert_eq!(res.definitions.len(), 3);
    assert_eq!(res.definitions[0].from.word, "casa");
    assert_eq!(res.definitions[0].from.part, "nf");
    assert_eq!(res.definitions[0].from.definition, "vivienda");
    assert_eq!(res.definitions[0].to.word, "house");
    assert_eq!(res.definitions[0].to.definition, "house");
    assert_eq!(res.definitions[0].from.example, vec!["Mi casa es grande.".to_string()]);
    assert_eq!(res.definitions[0].to.example, vec!["My house is big.".to_string()]);
    assert_eq!(res.definitions[1].from.definition, "linaje");
    assert_eq!(res.definitions[2].to.word, "firm");
}

#[test]
fn no_entry_marker_is_not_found() {
    let html = "<html><body><p id=\"noEntryFound\">No translation found.</p></body></html>";
    assert_eq!(parse(html), Err(ParseError::NotFound));
}

#[test]
fn page_without_result_table_is_malformed() {
    let html = "<html><body><p>nothing here</p></body></html>";
    assert_eq!(parse(html), Err(ParseError::MalformedPage));
}

#[test]
fn missing_examples_stay_empty_while_mandatory_fields_hold() {
    let body = [
        sense_row("even", "nuevo", "reciente", "new"),
        example_row("even", "Un coche nuevo.", "A new car."),
        sense_row("odd", "nuevo", "sin usar", "unused"),
    ]
    .concat();
    let res = parse(&page(&[&body])).expect("two senses expected");
    assert_eq!(res.definitions.len(), 2);
    let second = &res.definitions[1];
    assert_eq!(second.from.word, "nuevo");
    assert_eq!(second.from.definition, "sin usar");
    assert!(second.from.example.is_empty());
    assert!(second.to.example.is_empty());
}

#[test]
fn one_bad_group_fails_the_whole_request() {
    let no_word_row = "<tr class=\"odd\"><td class=\"FrWrd\"><em>nf</em></td><td>(rota)</td><td class=\"ToWrd\">broken</td></tr>";
    let body = [sense_row("even", "palabra", "unidad", "word").as_str(), no_word_row].concat();
    assert_eq!(parse(&page(&[&body])), Err(ParseError::MalformedPage));
}

#[test]
fn senses_come_from_the_secondary_table_alone() {
    let first = "";
    let second = [
        sense_row("even", "brick", "bloque", "ladrillo"),
        sense_row("odd", "brick", "persona fiable", "persona de confianza"),
    ]
    .concat();
    let res = parse(&page(&[first, &second])).expect("two senses expected");
    assert_eq!(res.definitions.len(), 2);
    assert_eq!(res.definitions[0].from.word, "brick");
    assert_eq!(res.definitions[0].from.definition, "bloque");
    assert_eq!(res.definitions[1].from.definition, "persona fiable");
}

#[test]
fn only_the_first_two_tables_are_read() {
    let t1 = sense_row("even", "alto", "elevado", "tall");
    let t2 = sense_row("even", "alto", "parada", "halt");
    let t3 = sense_row("even", "alto", "extra", "extra");
    let res = parse(&page(&[&t1, &t2, &t3])).expect("two tables expected");
    assert_eq!(res.definitions.len(), 2);
    assert_eq!(res.definitions[0].to.word, "tall");
    assert_eq!(res.definitions[1].to.word, "halt");
}

#[test]
fn groups_of_both_tables_append_in_order() {
    let first = [
        sense_row("even", "hace", "tercera persona", "does"),
        sense_row("odd", "hace", "tiempo atras", "ago"),
    ]
    .concat();
    let second = sense_row("even", "hace falta", "es necesario", "is needed");
    let res = parse(&page(&[&first, &second])).expect("three senses expected");
    assert_eq!(res.definitions.len(), 3);
    assert_eq!(res.definitions[0].to.word, "does");
    assert_eq!(res.definitions[1].to.word, "ago");
    assert_eq!(res.definitions[2].to.word, "is needed");
}

#[test]
fn missing_qualifier_defaults_to_empty() {
    let body = "<tr class=\"even\"><td class=\"FrWrd\"><strong>verte</strong></td><td>(mirarte)</td><td class=\"ToWrd\">see you</td></tr>";
    let res = parse(&page(&[body])).expect("one sense expected");
    assert_eq!(res.definitions.len(), 1);
    assert_eq!(res.definitions[0].from.part, "");
    assert_eq!(res.definitions[0].to.part, "");
    assert_eq!(res.definitions[0].from.word, "verte");
}

#[test]
fn empty_tables_are_malformed() {
    let res = parse(&page(&["", ""]));
    assert_eq!(res, Err(ParseError::MalformedPage));
}

#[test]
fn parsing_twice_gives_equal_responses() {
    let body = [
        sense_row("even", "entregar", "dar", "deliver"),
        sense_row("odd", "entregar", "rendir", "surrender"),
    ]
    .concat();
    let html = page(&[&body]);
    let first = parse(&html);
    let second = parse(&html);
    assert_eq!(first, second);
    let bad = "<html><body><p id=\"noEntryFound\"></p></body></html>";
    assert_eq!(parse(bad), parse(bad));
}

#[test]
fn entry_fields_are_cleaned_and_joined() {
    let entry = vec![
        "<tr class=\"even\"><td class=\"FrWrd\"><strong> hola <br></strong><em> interj </em></td><td>( saludo \u{24d8})</td><td class=\"ToWrd\"> hello \u{21d2}<em>interj</em></td></tr>".to_string(),
        "<tr class=\"even\"><td class=\"ToWrd\"> hi there </td></tr>".to_string(),
    ];
    let d = parse_entry(&entry).expect("entry expected");
    assert_eq!(d.from.word, "hola");
    assert_eq!(d.from.part, "interj");
    assert_eq!(d.from.definition, "saludo");
    assert_eq!(d.to.word, "hello ->, hi there");
    assert_eq!(d.to.definition, "hello ->, hi there");
    assert_eq!(d.to.part, "interj");
    assert!(d.from.example.is_empty());
}

#[test]
fn entry_without_source_word_is_rejected() {
    let entry = vec![
        "<tr><td class=\"FrWrd\"><em>nf</em></td><td>(x)</td><td class=\"ToWrd\">y</td></tr>"
            .to_string(),
    ];
    assert_eq!(parse_entry(&entry), Err(ParseError::MalformedPage));
}

#[test]
fn entry_without_second_cell_is_rejected() {
    let entry = vec!["<tr><td class=\"FrWrd\"><strong>sola</strong></td></tr>".to_string()];
    assert_eq!(parse_entry(&entry), Err(ParseError::MalformedPage));
}
