use raggust::rag::{build_context, build_prompt, RagResponse, PREAMBLE, TOP_K};

#[test]
fn context_numbers_passages_from_one() {
    let passages = vec!["first".to_string(), "second".to_string()];
    assert_eq!(build_context(&passages), " [1] first  [2] second ");
    assert_eq!(build_context(&[]), "");
}

#[test]
fn context_numbers_past_nine() {
    let passages: Vec<String> = (0..11).map(|i| format!("p{}", i)).collect();
    let context = build_context(&passages);
    let expected: String = (0..11).map(|i| format!(" [{}] p{} ", i + 1, i)).collect();
    assert_eq!(context, expected);
}

#[test]
fn prompt_joins_preamble_context_and_question() {
    let prompt = build_prompt(" [1] ctx ", "Who is Alicia?");
    assert_eq!(
        prompt,
        format!("preamble: {}\nContext:  [1] ctx \n Question: Who is Alicia?", PREAMBLE)
    );
    assert!(PREAMBLE.starts_with("You are Duck, the most profound duck there ever is. You are"));
    assert!(PREAMBLE.ends_with("never under no circumstances make up answers."));
}

#[test]
fn response_holds_the_answer() {
    let r = RagResponse { response: "quack".to_string() };
    assert_eq!(r.response, "quack");
    assert_eq!(TOP_K, 5);
}
