use anytalk_daemon::transcript::{
    commit_result, parse_asr_texts, read_result, AsrResult, Utterance,
};

struct Memory {
    end_time: i64,
    full_text: String,
}

impl Memory {
    fn new() -> Self {
        Memory { end_time: -1, full_text: String::new() }
    }

    fn show(&mut self, json: &str, mode: &str) -> (Option<String>, Vec<String>) {
        parse_asr_texts(json, &mut self.end_time, &mut self.full_text, mode)
    }
}

fn utterance(definite: bool, end_time: i64, text: &str) -> Utterance {
    Utterance { definite, end_time, text: Some(text.to_string()) }
}

const TWO: &str = "{\"result\":{\"utterances\":[\
    {\"definite\":true,\"end_time\":100,\"text\":\" one \"},\
    {\"definite\":true,\"end_time\":200,\"text\":\"two\"},\
    {\"definite\":false,\"end_time\":300,\"text\":\"thr\"},\
    {\"text\":\" three \"},\
    {\"definite\":false,\"text\":\"  \"}]}}";

#[test]
fn definite_utterances_are_final() {
    let mut memory = Memory::new();
    let (partial, finals) = memory.show(TWO, "bidi_async");
    assert_eq!(partial.as_deref(), Some("three"));
    assert_eq!(finals, vec!["one", "two"]);
    assert_eq!(memory.end_time, 200);
    assert_eq!(memory.full_text, "");
}

#[test]
fn repeated_utterances_are_handed_out_once() {
    let mut memory = Memory::new();
    memory.show(TWO, "bidi_async");
    let (partial, finals) = memory.show(TWO, "bidi_async");
    assert_eq!(partial.as_deref(), Some("three"));
    assert!(finals.is_empty());
    assert_eq!(memory.end_time, 200);
}

#[test]
fn older_utterances_are_passed_over() {
    let mut end_time: i64 = 150;
    let mut full_text = "kept".to_string();
    let result = AsrResult::Utterances(vec![
        utterance(true, 300, "new"),
        utterance(true, 200, "late"),
        utterance(true, 300, "same"),
        utterance(true, 400, "newer"),
    ]);
    let (partial, finals) = commit_result(&result, &mut end_time, &mut full_text, "bidi");
    assert_eq!(partial, None);
    assert_eq!(finals, vec!["new", "newer"]);
    assert_eq!(end_time, 400);
    assert_eq!(full_text, "kept");
}

#[test]
fn blank_utterances_do_not_count() {
    let mut end_time: i64 = -1;
    let mut full_text = String::new();
    let result = AsrResult::Utterances(vec![
        utterance(true, 500, " \n"),
        Utterance { definite: true, end_time: 600, text: None },
        utterance(true, 10, "x"),
    ]);
    let (partial, finals) = commit_result(&result, &mut end_time, &mut full_text, "bidi");
    assert_eq!(partial, None);
    assert_eq!(finals, vec!["x"]);
    assert_eq!(end_time, 10);
}

#[test]
fn utterance_without_an_end_time_is_never_final() {
    let mut memory = Memory::new();
    let (partial, finals) = memory.show(
        "{\"result\":{\"utterances\":[{\"definite\":true,\"text\":\"a\"},\
         {\"definite\":true,\"end_time\":1.5,\"text\":\"b\"},\
         {\"definite\":true,\"end_time\":9223372036854775808,\"text\":\"c\"},\
         {\"definite\":true,\"end_time\":\"7\",\"text\":\"d\"}]}}",
        "bidi",
    );
    assert_eq!(partial, None);
    assert!(finals.is_empty());
    assert_eq!(memory.end_time, -1);
}

#[test]
fn members_of_other_types_are_as_good_as_none() {
    match read_result(
        "{\"result\":{\"utterances\":[{\"definite\":1,\"end_time\":-5,\"text\":[]},7],\"text\":\"t\"}}",
    ) {
        AsrResult::Utterances(list) => {
            assert_eq!(list.len(), 2);
            for (i, u) in list.iter().enumerate() {
                assert!(!u.definite);
                assert_eq!(u.end_time, if i == 0 { -5 } else { -1 });
                assert_eq!(u.text, None);
            }
        }
        _ => panic!("utterances expected"),
    }
    match read_result("{\"result\":{\"utterances\":{},\"text\":\"t\"}}") {
        AsrResult::Text(text) => assert_eq!(text, "t"),
        _ => panic!("text expected"),
    }
    match read_result("{\"result\":{\"text\":\"a\",\"text\":\"b\"}}") {
        AsrResult::Text(text) => assert_eq!(text, "b"),
        _ => panic!("text expected"),
    }
}

#[test]
fn response_without_a_result_gives_nothing() {
    for json in [
        "",
        "{",
        "null",
        "[]",
        "{}",
        "{\"result\":null}",
        "{\"result\":[]}",
        "{\"result\":{}}",
        "{\"result\":{\"text\":5}}",
        "{\"result\":{\"text\":\" \"}}",
        "{\"result\":{\"text\":\"a\"}} x",
        "{\"result\":{\"utterances\":[]}}",
    ] {
        let mut memory = Memory { end_time: 4, full_text: "f".to_string() };
        let (partial, finals) = memory.show(json, "bidi_async");
        assert_eq!(partial, None);
        assert!(finals.is_empty());
        assert_eq!(memory.end_time, 4);
        assert_eq!(memory.full_text, "f");
    }
}

#[test]
fn whole_text_is_preview_and_final_at_once() {
    let mut memory = Memory::new();
    for _ in 0..2 {
        let (partial, finals) = memory.show("{\"result\":{\"text\":\" hello \"}}", "bidi_async");
        assert_eq!(partial.as_deref(), Some("hello"));
        assert_eq!(finals, vec!["hello"]);
        assert_eq!(memory.full_text, "hello");
    }
}

#[test]
fn continued_text_gives_the_continuation() {
    let mut memory = Memory::new();
    let (partial, finals) = memory.show("{\"result\":{\"text\":\"你好\"}}", "nostream");
    assert_eq!(partial, None);
    assert_eq!(finals, vec!["你好"]);
    let (_, finals) = memory.show("{\"result\":{\"text\":\"你好  世界 \"}}", "nostream");
    assert_eq!(finals, vec!["世界"]);
    assert_eq!(memory.full_text, "你好  世界");
    let (_, finals) = memory.show("{\"result\":{\"text\":\"你好  世界\"}}", "nostream");
    assert!(finals.is_empty());
    let (_, finals) = memory.show("{\"result\":{\"text\":\"你\"}}", "nostream");
    assert_eq!(finals, vec!["你"]);
    assert_eq!(memory.full_text, "你");
    assert_eq!(memory.end_time, -1);
}
