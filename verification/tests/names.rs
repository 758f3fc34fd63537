use presence::names::{create_name, display_name, pair_up, split_lines, NAME_PLACEHOLDER};

fn lines(text: &str) -> Vec<String> {
    split_lines(text)
}

#[test]
fn split_of_text_without_break_is_one_line() {
    assert_eq!(lines(""), vec![""]);
    assert_eq!(lines("fox"), vec!["fox"]);
    assert_eq!(lines("a\nb"), vec!["a\nb"]);
    assert_eq!(lines("a\rb"), vec!["a\rb"]);
    assert_eq!(lines("a\r"), vec!["a\r"]);
    assert_eq!(lines("\n\r"), vec!["\n\r"]);
}

#[test]
fn split_at_line_breaks() {
    assert_eq!(lines("fox\r\nowl"), vec!["fox", "owl"]);
    assert_eq!(lines("fox\r\nowl\r\nelk"), vec!["fox", "owl", "elk"]);
    assert_eq!(lines("fox\r\n"), vec!["fox", ""]);
    assert_eq!(lines("\r\nfox"), vec!["", "fox"]);
    assert_eq!(lines("\r\n"), vec!["", ""]);
    assert_eq!(lines("\r\n\r\n"), vec!["", "", ""]);
}

#[test]
fn split_with_stray_carriage_returns() {
    assert_eq!(lines("\r\r\n"), vec!["\r", ""]);
    assert_eq!(lines("a\r\r\nb"), vec!["a\r", "b"]);
    assert_eq!(lines("a\r\n\rb"), vec!["a", "\rb"]);
    assert_eq!(lines("a\r\n\nb"), vec!["a", "\nb"]);
    assert_eq!(lines("\r\r"), vec!["\r\r"]);
}

#[test]
fn split_agrees_with_std_on_many_texts() {
    let alphabet = ['a', '\r', '\n', 'é'];
    let mut texts: Vec<String> = vec![String::new()];
    for _ in 0..6 {
        let mut longer = Vec::new();
        for t in &texts {
            for c in alphabet {
                let mut s = t.clone();
                s.push(c);
                longer.push(s);
            }
        }
        for t in &longer {
            let expected: Vec<String> = t.split("\r\n").map(String::from).collect();
            assert_eq!(lines(t), expected);
        }
        texts = longer;
    }
}

#[test]
fn split_handles_text_beyond_ascii() {
    assert_eq!(lines("günstig\r\n日本"), vec!["günstig", "日本"]);
}

#[test]
fn pair_up_takes_the_first_of_each() {
    let adjectives = vec![String::from("calm"), String::from("brave")];
    let nouns = vec![String::from("owl"), String::from("fox")];
    assert_eq!(pair_up(&adjectives, &nouns), "calm owl");
    assert_eq!(pair_up(&vec![String::new()], &vec![String::new()]), " ");
}

#[test]
fn created_name_is_an_adjective_and_a_noun() {
    let nouns = "owl\r\nfox\r\nelk";
    let adjectives = "calm\r\nbrave";
    for _ in 0..100 {
        let name = create_name(nouns, adjectives);
        let parts: Vec<&str> = name.split(' ').collect();
        assert_eq!(parts.len(), 2);
        assert!(["calm", "brave"].contains(&parts[0]));
        assert!(["owl", "fox", "elk"].contains(&parts[1]));
    }
}

#[test]
fn created_name_of_single_words() {
    assert_eq!(create_name("owl", "calm"), "calm owl");
    assert_eq!(create_name("", ""), " ");
}

#[test]
fn created_names_vary() {
    let words: Vec<String> = (0..40).map(|k| format!("w{}", k)).collect();
    let text = words.join("\r\n");
    let first = create_name(&text, &text);
    let mut varied = false;
    for _ in 0..200 {
        if create_name(&text, &text) != first {
            varied = true;
        }
    }
    assert!(varied);
}

#[test]
fn display_name_falls_back_to_the_placeholder() {
    assert_eq!(display_name(None), "IO Error :D");
    assert_eq!(NAME_PLACEHOLDER, "IO Error :D");
    let name = display_name(Some((String::from("owl"), String::from("calm"))));
    assert_eq!(name, "calm owl");
}
