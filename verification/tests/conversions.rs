use report_conv::cleanup::{classify_line, convert_rtf_to_markdown, is_noise, remove_groups};
use report_conv::codec::{document_to_markdown, paragraph_to_markdown};
use report_conv::decode::{
    decode_markdown_runs, markdown_line_to_paragraph, markdown_text_to_document, normalize_heading,
};
use report_conv::index::should_keep;
use report_conv::model::{bold_is_on, italics_is_on, underline_is_on, Alignment, Paragraph, Run,
    UnderlineState};
use report_conv::plain::{
    clean_markdown_text, format_lines_as_markdown, promote_plain_text, should_bold_section,
};
use report_conv::text::{find_first_last_nonempty, split_lines};

fn chars(s: &str) -> Vec<char> {
    s.chars().collect()
}

fn string_of(v: &Vec<char>) -> String {
    v.iter().collect()
}

fn run(text: &str, bold: bool, italic: bool, underline: bool) -> Run {
    Run { text: chars(text), bold, italic, underline }
}

#[test]
fn round_trip_three_runs() {
    let runs = vec![run("Achados", true, false, false), run(" do exame ", false, false, false),
        run("final", false, true, false)];
    let plain = chars("Achados do exame final");
    let para = Paragraph { runs, plain };
    let md = paragraph_to_markdown(&para);
    assert_eq!(string_of(&md), "**Achados** do exame *final*");
    let decoded = decode_markdown_runs(&md, false);
    assert_eq!(decoded.len(), 3);
    assert_eq!(string_of(&decoded[0].text), "Achados");
    assert!(decoded[0].bold && !decoded[0].italic);
    assert_eq!(string_of(&decoded[1].text), " do exame ");
    assert!(!decoded[1].bold && !decoded[1].italic);
    assert_eq!(string_of(&decoded[2].text), "final");
    assert!(!decoded[2].bold && decoded[2].italic);
}

#[test]
fn round_trip_bold_italic_nesting() {
    let runs = vec![run("tudo", true, true, false)];
    let para = Paragraph { runs, plain: chars("tudo") };
    let md = paragraph_to_markdown(&para);
    assert_eq!(string_of(&md), "***tudo***");
    let decoded = decode_markdown_runs(&md, false);
    assert_eq!(decoded.len(), 1);
    assert_eq!(string_of(&decoded[0].text), "tudo");
    assert!(decoded[0].bold && decoded[0].italic);
}

#[test]
fn blank_paragraph_identity() {
    let para = Paragraph { runs: Vec::new(), plain: Vec::new() };
    let md = document_to_markdown(&vec![para]);
    assert_eq!(md, "");
    let doc = markdown_text_to_document(&md, 10);
    assert_eq!(doc.len(), 1);
    assert_eq!(doc[0].runs.len(), 0);
    assert_eq!(doc[0].alignment, Alignment::Justify);
    assert_eq!(doc[0].font_size_pt, 10);
}

#[test]
fn first_last_line_policy() {
    let doc = markdown_text_to_document("# Cranio\n\nmeio do laudo\nfim do laudo", 10);
    assert_eq!(doc.len(), 4);
    assert_eq!(doc[0].alignment, Alignment::Center);
    assert_eq!(doc[0].font_size_pt, 10);
    assert_eq!(doc[1].alignment, Alignment::Justify);
    assert_eq!(doc[2].alignment, Alignment::Justify);
    assert_eq!(doc[2].font_size_pt, 10);
    assert_eq!(doc[3].alignment, Alignment::Center);
    assert_eq!(doc[3].font_size_pt, 8);
    // heading marker promotes the first line's run to bold
    assert_eq!(doc[0].runs.len(), 1);
    assert!(doc[0].runs[0].bold);
    assert_eq!(string_of(&doc[0].runs[0].text), "Cranio");
    // the last line is forced italic
    assert_eq!(doc[3].runs.len(), 1);
    assert!(doc[3].runs[0].italic);
    assert!(!doc[3].runs[0].bold);
    // interior lines keep their own flags
    assert_eq!(doc[2].runs.len(), 1);
    assert!(!doc[2].runs[0].italic);
}

#[test]
fn remove_groups_reaches_a_fixpoint() {
    let once = remove_groups(&chars("a{b{c}d}e"));
    assert_eq!(string_of(&once), "ae");
    let twice = remove_groups(&once);
    assert_eq!(twice, once);
    let unbalanced = remove_groups(&chars("{{x}"));
    assert_eq!(string_of(&unbalanced), "{");
    assert_eq!(remove_groups(&unbalanced), unbalanced);
}

#[test]
fn noise_filtering() {
    assert!(is_noise(&chars("Calibri")));
    assert!(is_noise(&chars("CALIBRI")));
    assert!(is_noise(&chars("123 - 45")));
    assert!(is_noise(&chars("a-")));
    assert!(is_noise(&chars("}}x y")));
    assert!(!is_noise(&chars("TC de crânio: 2024.")));
}

#[test]
fn classification_determinism() {
    let line = chars("TOMOGRAFIA COMPUTADORIZADA DO CRANIO");
    let classified = classify_line(&line);
    assert_eq!(string_of(&classified), "## TOMOGRAFIA COMPUTADORIZADA DO CRANIO");
}

#[test]
fn classification_section_bold() {
    let classified = classify_line(&chars("indicação clínica: dor de cabeça"));
    assert_eq!(string_of(&classified), "**indicação clínica: dor de cabeça**");
}

#[test]
fn classification_footnote_italic() {
    let classified = classify_line(&chars("probabilidade diagnóstica limitada."));
    assert_eq!(string_of(&classified), "*probabilidade diagnóstica limitada.*");
}

#[test]
fn legacy_pipeline_end_to_end() {
    let input = "POSSIBLE:\n{group}\nTOMOGRAFIA COMPUTADORIZADA DO CRANIO\nindicação clínica: dor de cabeça\nExame com probabilidade diagnóstica limitada.\n12\n";
    let md = convert_rtf_to_markdown(input);
    assert_eq!(
        md,
        "POSSIBLE:\n\n**indicação clínica: dor de cabeça**\n*probabilidade diagnóstica limitada.*"
    );
}

#[test]
fn plain_text_promotion() {
    let lines: Vec<String> = vec!["".to_string(), "Relatório".to_string(),
        "Indicação clínica: dor".to_string(), "normal".to_string(), "Assinado".to_string()];
    let formatted = format_lines_as_markdown(&lines);
    let expected: Vec<String> = vec!["".to_string(), "**Relatório**".to_string(),
        "**Indicação clínica: dor**".to_string(), "normal".to_string(), "*Assinado*".to_string()];
    assert_eq!(formatted, expected);
}

#[test]
fn plain_text_promotion_whole_document() {
    let md = promote_plain_text("\nRelatório\nIndicação clínica: dor\nnormal\nAssinado");
    assert_eq!(md, "\n**Relatório**\n**Indicação clínica: dor**\nnormal\n*Assinado*");
}

#[test]
fn toggle_scan_unterminated_bold() {
    let decoded = decode_markdown_runs(&chars("**bold"), false);
    assert_eq!(decoded.len(), 1);
    assert_eq!(string_of(&decoded[0].text), "bold");
    assert!(decoded[0].bold);
    assert!(!decoded[0].italic);
}

#[test]
fn toggle_scan_mixed_markers() {
    // a double underscore toggles bold exactly as a double asterisk does
    let decoded = decode_markdown_runs(&chars("__sub__"), false);
    assert_eq!(decoded.len(), 1);
    assert_eq!(string_of(&decoded[0].text), "sub");
    assert!(decoded[0].bold);
}

#[test]
fn clean_markdown_removes_markers() {
    assert_eq!(clean_markdown_text("## **Título**\n*x*"), " Título\nx");
    assert_eq!(clean_markdown_text("sem marcas"), "sem marcas");
}

#[test]
fn should_bold_section_prefixes_and_colon() {
    assert!(should_bold_section("Impressão:"));
    assert!(should_bold_section("  indicação clínica: dor"));
    assert!(should_bold_section("Qualquer coisa:"));
    assert!(!should_bold_section("texto comum"));
    let long = format!("{}:", "a".repeat(125));
    assert!(!should_bold_section(&long));
}

#[test]
fn find_first_last_nonempty_indices() {
    let lines = vec![chars(""), chars("a"), chars("   "), chars("b"), chars("")];
    assert_eq!(find_first_last_nonempty(&lines), Some((1, 3)));
    let blanks = vec![chars(""), chars("  ")];
    assert_eq!(find_first_last_nonempty(&blanks), None);
}

#[test]
fn split_lines_handles_carriage_returns() {
    let lines = split_lines(&chars("a\r\nb\n"));
    assert_eq!(lines.len(), 2);
    assert_eq!(string_of(&lines[0]), "a");
    assert_eq!(string_of(&lines[1]), "b");
}

#[test]
fn normalize_heading_strips_hashes() {
    let (text, heading) = normalize_heading(&chars("## Cabeça"));
    assert_eq!(string_of(&text), "Cabeça");
    assert!(heading);
    let (text2, heading2) = normalize_heading(&chars("texto"));
    assert_eq!(string_of(&text2), "texto");
    assert!(!heading2);
}

#[test]
fn encode_falls_back_to_plain_text() {
    let para = Paragraph { runs: Vec::new(), plain: chars("campo gerado") };
    let md = paragraph_to_markdown(&para);
    assert_eq!(string_of(&md), "campo gerado");
    let para2 = Paragraph { runs: vec![run("", true, false, false)], plain: chars("x") };
    assert_eq!(string_of(&paragraph_to_markdown(&para2)), "x");
}

#[test]
fn encode_underline_wraps_outermost() {
    let para = Paragraph {
        runs: vec![run("sub", true, false, true)],
        plain: chars("sub"),
    };
    assert_eq!(string_of(&paragraph_to_markdown(&para)), "__**sub**__");
}

#[test]
fn flag_states() {
    assert!(!bold_is_on(&None));
    assert!(bold_is_on(&Some(None)));
    assert!(!bold_is_on(&Some(Some(false))));
    assert!(bold_is_on(&Some(Some(true))));
    assert!(italics_is_on(&Some(None)));
    assert!(!italics_is_on(&None));
    assert!(!underline_is_on(&UnderlineState::Absent));
    assert!(underline_is_on(&UnderlineState::Present));
    assert!(!underline_is_on(&UnderlineState::StyleNone));
    assert!(underline_is_on(&UnderlineState::StyleOther));
}

#[test]
fn should_keep_matches_manifest_paths() {
    let expected = vec!["Templates_docx/a.docx".to_string(), "Templates_docx/b.docx".to_string()];
    assert!(should_keep(&"Templates_docx/a.docx".to_string(), &expected));
    assert!(!should_keep(&"Templates_docx/c.docx".to_string(), &expected));
}

#[test]
fn single_line_is_both_first_and_last() {
    let doc = markdown_text_to_document("só uma linha", 10);
    assert_eq!(doc.len(), 1);
    assert_eq!(doc[0].alignment, Alignment::Center);
    assert_eq!(doc[0].font_size_pt, 8);
    assert_eq!(doc[0].runs.len(), 1);
    assert!(doc[0].runs[0].italic);
}

#[test]
fn blank_runs_collapse_in_legacy_output() {
    let md = convert_rtf_to_markdown("alfa 1x.\n\n\n\nbeta 2y.");
    assert_eq!(md, "alfa 1x.\n\nbeta 2y.");
}

#[test]
fn legacy_cleanup_stable_on_prose() {
    let once = convert_rtf_to_markdown("alfa 1x.\n\n\n\nbeta 2y.");
    let twice = convert_rtf_to_markdown(&once);
    assert_eq!(twice, once);
}

#[test]
fn markdown_line_paragraph_forced_italic() {
    let p = markdown_line_to_paragraph(&chars("**negrito** comum"), Alignment::Center, true, 8);
    assert_eq!(p.alignment, Alignment::Center);
    assert_eq!(p.font_size_pt, 8);
    assert_eq!(p.runs.len(), 2);
    assert!(p.runs[0].bold && p.runs[0].italic);
    assert!(!p.runs[1].bold && p.runs[1].italic);
}
