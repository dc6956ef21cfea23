use text_researcher::conllu::{int_error_message, parse_conllu, parse_feats, parse_i32, parse_u32, IntErrorKind};
use text_researcher::error::UdpipelineError;

#[test]
fn test_parse_conllu_single_sentence() {
    let input = "\
# text = Это пример.
1\tЭто\tэто\tDET\tDT\tAnimacy=Inan|Case=Nom\t_\t_\t_\t_
2\tпример\tпример\tNOUN\tNN\tCase=Nom|Gender=Masc|Number=Sing\t_\t_\t_\t_
";

    let sentences = parse_conllu(input).unwrap();
    assert_eq!(sentences.len(), 1);
    assert_eq!(sentences[0].text, "Это пример.");
    assert_eq!(sentences[0].tokens.len(), 2);

    let t1 = &sentences[0].tokens[0];
    assert_eq!(t1.word, "Это");
    assert_eq!(t1.lemma, "это");
    assert_eq!(t1.upostag, "DET");
    assert_eq!(t1.feats.get("Animacy").unwrap(), "Inan");

    let t2 = &sentences[0].tokens[1];
    assert_eq!(t2.word, "пример");
    assert_eq!(t2.upostag, "NOUN");
    assert_eq!(t2.feats.get("Gender").unwrap(), "Masc");
}

#[test]
fn test_parse_conllu_multiple_sentences() {
    let input = "\
# text = Привет.
1\tПривет\tпривет\tINTJ\tUH\t_\t_\t_\t_\t_

# text = Как дела?
1\tКак\tкак\tADV\tRB\t_\t_\t_\t_\t_
2\tдела\tдело\tNOUN\tNN\tCase=Nom|Gender=Neut|Number=Plur\t_\t_\t_\t_
";

    let sentences = parse_conllu(input).unwrap();
    assert_eq!(sentences.len(), 2);
    assert_eq!(sentences[0].tokens.len(), 1);
    assert_eq!(sentences[1].tokens.len(), 2);
}

#[test]
fn test_parse_empty() {
    let sentences = parse_conllu("").unwrap();
    assert!(sentences.is_empty());
}

#[test]
fn test_parse_feats_empty() {
    let feats = parse_feats("_");
    assert!(feats.is_empty());
}

#[test]
fn parse_reads_head_deprel_and_ids() {
    let input = "1\tМама\tмама\tNOUN\tNN\tCase=Nom\t2\tnsubj\t_\t_\n2\tмыла\tмыть\tVERB\tVB\t_\t0\troot\t_\t_\n";
    let sentences = parse_conllu(input).unwrap();
    assert_eq!(sentences.len(), 1);
    assert_eq!(sentences[0].text, "");
    let t = &sentences[0].tokens;
    assert_eq!(t[0].id, 1);
    assert_eq!(t[0].head, Some(2));
    assert_eq!(t[0].deprel.as_deref(), Some("nsubj"));
    assert_eq!(t[1].id, 2);
    assert_eq!(t[1].head, Some(0));
    assert!(t[1].feats.is_empty());
}

#[test]
fn parse_skips_short_lines_and_multiword_tokens() {
    let input = "1-2\tвот\t_\t_\t_\t_\t_\t_\t_\t_\n1\tвот\tвот\tPART\tRP\t_\nshort\tline\n2\tон\tон\tPRON\tPR\t_\t-1\t_\n";
    let sentences = parse_conllu(input).unwrap();
    assert_eq!(sentences.len(), 1);
    assert_eq!(sentences[0].tokens.len(), 2);
    assert_eq!(sentences[0].tokens[0].word, "вот");
    assert_eq!(sentences[0].tokens[0].head, None);
    assert_eq!(sentences[0].tokens[1].head, Some(-1));
    assert_eq!(sentences[0].tokens[1].deprel, None);
}

#[test]
fn parse_reports_bad_id_as_std_does() {
    let err = parse_conllu("x1\ta\tb\tc\td\te\n").unwrap_err();
    let expected = format!("bad ID 'x1': {}", "x1".parse::<u32>().unwrap_err());
    match err {
        UdpipelineError::ParseError(m) => assert_eq!(m, expected),
        other => panic!("unexpected error {:?}", other),
    }
    let err = parse_conllu("99999999999\ta\tb\tc\td\te\n").unwrap_err();
    let expected = format!("bad ID '99999999999': {}", "99999999999".parse::<u32>().unwrap_err());
    assert_eq!(err.message(), format!("failed to parse CoNLL-U output: {}", expected));
}

#[test]
fn parse_trims_lines_and_crlf() {
    let input = "  # text = Да  \r\n1\tДа\tда\tPART\tRP\t_\t_\t_\t_\t_\r\n\r\n";
    let sentences = parse_conllu(input).unwrap();
    assert_eq!(sentences.len(), 1);
    assert_eq!(sentences[0].text, "Да");
}

#[test]
fn trailing_newline_changes_nothing() {
    let base = "# text = A\n1\tA\ta\tX\tX\t_";
    let a = parse_conllu(base).unwrap();
    let b = parse_conllu(&format!("{}\n", base)).unwrap();
    assert_eq!(a.len(), 1);
    assert_eq!(b.len(), 1);
    assert_eq!(a[0].text, b[0].text);
    assert_eq!(a[0].tokens.len(), b[0].tokens.len());
}

#[test]
fn sentences_never_empty() {
    let input = "# text = nothing here\n\n\n# text = one\n1\tone\tone\tNUM\tCD\t_\n\n\n";
    let sentences = parse_conllu(input).unwrap();
    assert_eq!(sentences.len(), 1);
    assert!(sentences.iter().all(|s| !s.tokens.is_empty()));
    assert_eq!(sentences[0].text, "one");
}

#[test]
fn feats_later_value_wins_and_pairs_without_eq_are_skipped() {
    let feats = parse_feats("Case=Nom|Bad|Case=Gen|Number=Sing");
    assert_eq!(feats.len(), 2);
    assert_eq!(feats.get("Case").unwrap(), "Gen");
    assert_eq!(feats.get("Number").unwrap(), "Sing");
    assert!(feats.get("Bad").is_none());
    assert!(parse_feats("").is_empty());
    let f = parse_feats("A=b=c");
    assert_eq!(f.get("A").unwrap(), "b=c");
}

fn chars(s: &str) -> Vec<char> {
    s.chars().collect()
}

#[test]
fn integers_parse_as_std_does() {
    for s in ["0", "+7", "-7", "", "+", "-", "4294967295", "4294967296", "12a", "007"] {
        let mine = parse_u32(&chars(s));
        let std = s.parse::<u32>();
        assert_eq!(mine.is_ok(), std.is_ok(), "{}", s);
        if let (Ok(a), Ok(b)) = (mine, std.clone()) {
            assert_eq!(a, b);
        }
    }
    for s in ["0", "+7", "-7", "", "-", "2147483647", "2147483648", "-2147483648", "-2147483649", "1-"] {
        let mine = parse_i32(&chars(s));
        let std = s.parse::<i32>();
        assert_eq!(mine.is_ok(), std.is_ok(), "{}", s);
        if let (Ok(a), Ok(b)) = (mine, std.clone()) {
            assert_eq!(a, b);
        }
    }
    assert_eq!(parse_u32(&chars("")), Err(IntErrorKind::Empty));
    assert_eq!(parse_u32(&chars("-1")), Err(IntErrorKind::InvalidDigit));
    assert_eq!(parse_u32(&chars("5000000000")), Err(IntErrorKind::PosOverflow));
    assert_eq!(parse_i32(&chars("-3000000000")), Err(IntErrorKind::NegOverflow));
    assert_eq!(parse_i32(&chars("-2147483648")), Ok(i32::MIN));
}

#[test]
fn int_error_messages_match_std() {
    assert_eq!(int_error_message(IntErrorKind::Empty), "".parse::<u32>().unwrap_err().to_string());
    assert_eq!(int_error_message(IntErrorKind::InvalidDigit), "x".parse::<u32>().unwrap_err().to_string());
    assert_eq!(int_error_message(IntErrorKind::PosOverflow), "9999999999".parse::<u32>().unwrap_err().to_string());
    assert_eq!(int_error_message(IntErrorKind::NegOverflow), "-9999999999".parse::<i32>().unwrap_err().to_string());
}

fn summary(s: &[text_researcher::conllu::Sentence]) -> Vec<(String, Vec<(u32, String)>)> {
    s.iter()
        .map(|x| (x.text.clone(), x.tokens.iter().map(|t| (t.id, t.word.clone())).collect()))
        .collect()
}

#[test]
fn blank_line_concatenates_inputs() {
    let a = "# text = Кот спит.\n1\tКот\tкот\tNOUN\t_\t_\t_\t_\t_\t_\n2\tспит\tспать\tVERB\t_\t_\t_\t_\t_\t_";
    let b = "# text = Пёс.\n1\tПёс\tпёс\tNOUN\t_\t_\t_\t_\t_\t_\n\n1\tДа\tда\tPART\t_\t_\t_\t_\t_\t_\n";
    let sa = parse_conllu(a).unwrap();
    let sb = parse_conllu(b).unwrap();
    let joined = parse_conllu(&format!("{}\n\n{}", a, b)).unwrap();
    let mut expected = summary(&sa);
    expected.extend(summary(&sb));
    assert_eq!(summary(&joined), expected);
    assert_eq!(joined.len(), 3);
    // A sentence text left waiting at the end of the first input goes to
    // the next sentence, so the law needs none.
    let waiting = "1\tА\tа\tCCONJ\t_\t_\t_\t_\t_\t_\n\n# text = висит";
    let j = parse_conllu(&format!("{}\n\n{}", waiting, "1\tБ\tб\tX\t_\t_\t_\t_\t_\t_")).unwrap();
    assert_eq!(j[1].text, "висит");
}
