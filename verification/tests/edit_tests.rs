use mycode::edit::{
    line_offsets, plan_edit, split_lines, supports_edit, EditError, EditMatch, EditPlan,
    EditRequest, FUZZY_MATCH_NOTE,
};

fn edit(
    original: &str,
    old_string: &str,
    new_string: &str,
    replace_all: bool,
) -> Result<EditPlan, EditError> {
    let request = EditRequest {
        old_string: old_string.to_string(),
        new_string: new_string.to_string(),
        replace_all,
    };
    assert!(supports_edit(original, &request));
    plan_edit(original, &request)
}

#[test]
fn exact_match_replaces_a_single_occurrence() {
    let outcome = edit(
        "alpha\nbeta\ngamma\n",
        "beta",
        "BETA",
        /*replace_all*/ false,
    )
    .expect("exact edit should succeed");

    assert_eq!(outcome.updated, "alpha\nBETA\ngamma\n");
    assert_eq!(outcome.message, "The file has been updated.");
    assert_eq!(outcome.match_kind, EditMatch::Exact);
}

#[test]
fn repeated_old_string_requires_context_or_replace_all() {
    let error =
        edit("a\na\n", "a", "b", /*replace_all*/ false).expect_err("ambiguous edit must fail");
    assert_eq!(error, EditError::AmbiguousExact { matches: 2 });

    let outcome = edit("a\na\n", "a", "b", /*replace_all*/ true).expect("replace_all should work");
    assert_eq!(outcome.updated, "b\nb\n");
    assert_eq!(
        outcome.message,
        "The file has been updated (2 occurrences replaced)."
    );
}

#[test]
fn missing_old_string_reports_not_found() {
    let error = edit("alpha\n", "omega", "x", /*replace_all*/ false)
        .expect_err("missing old_string must fail");
    assert_eq!(error, EditError::NotFound);
}

#[test]
fn trailing_whitespace_difference_falls_back_to_fuzzy_match() {
    let outcome = edit(
        "fn main() {\n    let x = 1;   \n}\n",
        "fn main() {\n    let x = 1;\n}",
        "fn main() {\n    let x = 2;\n}",
        /*replace_all*/ false,
    )
    .expect("fuzzy edit should succeed");

    assert_eq!(outcome.updated, "fn main() {\n    let x = 2;\n}\n");
    assert_eq!(outcome.match_kind, EditMatch::Fuzzy);
    assert!(
        outcome.message.ends_with(FUZZY_MATCH_NOTE),
        "{}",
        outcome.message
    );
}

#[test]
fn exact_match_inside_a_longer_line_is_not_line_scoped() {
    let outcome = edit(
        "head\n    keep me   \ntail\n",
        "keep me",
        "KEEP ME",
        /*replace_all*/ false,
    )
    .expect("exact substring edit should succeed");

    assert_eq!(outcome.updated, "head\n    KEEP ME   \ntail\n");
    assert_eq!(outcome.message, "The file has been updated.");
}

#[test]
fn fuzzy_match_replaces_whole_lines_and_keeps_the_trailing_newline() {
    let outcome = edit(
        "head\nkeep me   \ntail\n",
        "keep me\n",
        "KEEP ME\n",
        /*replace_all*/ false,
    )
    .expect("fuzzy edit should succeed");

    assert_eq!(outcome.updated, "head\nKEEP ME\ntail\n");
    assert_eq!(outcome.match_kind, EditMatch::Fuzzy);
}

#[test]
fn ambiguous_fuzzy_match_requires_replace_all() {
    let original = "one   \ntwo\none   \n";
    let old_string = "one  \n";

    let error = edit(original, old_string, "1", /*replace_all*/ false)
        .expect_err("ambiguous fuzzy match must fail");
    assert_eq!(error, EditError::AmbiguousFuzzy { matches: 2 });

    let outcome =
        edit(original, old_string, "1", /*replace_all*/ true).expect("fuzzy replace_all works");
    assert_eq!(outcome.updated, "1\ntwo\n1\n");
}

#[test]
fn line_offsets_cover_every_line_terminator() {
    assert_eq!(line_offsets(""), vec![0]);
    assert_eq!(line_offsets("a\nb"), vec![0, 2, 3]);
    assert_eq!(line_offsets("a\nb\n"), vec![0, 2, 4]);
    assert_eq!(
        split_lines("a\nb\n"),
        vec!["a".to_string(), "b".to_string()]
    );
}

#[test]
fn rejects_empty_and_identical_requests() {
    assert_eq!(
        edit("alpha\n", "", "x", /*replace_all*/ false),
        Err(EditError::EmptyOldString)
    );
    assert_eq!(
        edit("alpha\n", "alpha", "alpha", /*replace_all*/ false),
        Err(EditError::IdenticalStrings)
    );
}

#[test]
fn line_offsets_count_bytes_of_multibyte_text() {
    assert_eq!(line_offsets("é\nb"), vec![0, 3, 4]);
    assert_eq!(split_lines("é\n\nb"), vec!["é".to_string(), String::new(), "b".to_string()]);
}

#[test]
fn exact_edit_reports_a_unified_diff() {
    let outcome = edit("alpha\nbeta\n", "beta", "BETA", false).expect("edit");
    assert!(outcome.unified_diff.contains("-beta"), "{}", outcome.unified_diff);
    assert!(outcome.unified_diff.contains("+BETA"), "{}", outcome.unified_diff);
}

#[test]
fn typographic_quotes_match_in_the_last_pass() {
    let outcome = edit("say \u{201c}hi\u{201d}\n", "say \"hi\"\n", "say \"bye\"\n", false)
        .expect("normalized edit");
    assert_eq!(outcome.updated, "say \"bye\"\n");
    assert_eq!(outcome.match_kind, EditMatch::Fuzzy);
    assert_eq!(outcome.replacements, 1);
}

#[test]
fn fuzzy_replacement_drops_a_newline_the_block_does_not_have() {
    let outcome = edit("a\nkeep   ", "keep\n", "KEEP\n", false).expect("fuzzy edit");
    assert_eq!(outcome.updated, "a\nKEEP");
}

#[test]
fn overlapping_fuzzy_blocks_that_outrun_the_text_are_not_supported() {
    let request = EditRequest {
        old_string: "xx \nxx ".to_string(),
        new_string: "y".to_string(),
        replace_all: true,
    };
    assert!(!supports_edit("xx\nxx\nxx\n", &request));
    let request = EditRequest { replace_all: false, ..request };
    assert!(supports_edit("xx\nxx\nxx\n", &request));
}

#[test]
fn overlapping_fuzzy_blocks_that_fit_are_replaced_in_turn() {
    let outcome = edit("x\nx\nx\n", "x \nx ", "y", /*replace_all*/ true)
        .expect("overlapping replace_all edit fits");
    assert_eq!(outcome.updated, "y\n");
    assert_eq!(outcome.replacements, 2);
    assert_eq!(outcome.match_kind, EditMatch::Fuzzy);
}

#[test]
fn edit_error_messages() {
    assert_eq!(
        EditError::AmbiguousExact { matches: 3 }.message(),
        "old_string appears 3 times in the file. Add surrounding context to make it unique, or set replace_all to true."
    );
    assert_eq!(
        EditError::AmbiguousFuzzy { matches: 2 }.message(),
        "old_string matches 2+ locations in the file. Add surrounding context to make it unique, or set replace_all to true."
    );
    assert_eq!(
        EditError::EmptyOldString.message(),
        "old_string must not be empty; use apply_patch to create a new file"
    );
}

#[test]
fn disjoint_fuzzy_blocks_are_all_replaced() {
    let request = EditRequest {
        old_string: "x\ny".to_string(),
        new_string: "z".to_string(),
        replace_all: true,
    };
    assert!(supports_edit("x \ny\nx \ny\n", &request));
    let outcome = edit("x \ny\nx \ny\n", "x\ny", "z", /*replace_all*/ true)
        .expect("disjoint blocks are replaced");
    assert_eq!(outcome.updated, "z\nz\n");
    assert_eq!(outcome.replacements, 2);
}

#[test]
fn a_single_fuzzy_match_is_always_supported() {
    let request = EditRequest {
        old_string: "é \nx ".to_string(),
        new_string: "y".to_string(),
        replace_all: false,
    };
    assert!(supports_edit("é\nx\n", &request));
    let outcome = plan_edit("é\nx\n", &request).expect("one fuzzy match");
    assert_eq!(outcome.updated, "y\n");
}

#[test]
fn line_offsets_frame_the_split_lines() {
    for text in ["a\nb\n", "é\nxy", "", "\n\n", "ab"] {
        let lines = split_lines(text);
        let offsets = line_offsets(text);
        assert_eq!(offsets.len(), lines.len() + 1);
        assert_eq!(offsets[0], 0);
        assert_eq!(*offsets.last().unwrap(), text.len());
        for (i, line) in lines.iter().enumerate() {
            assert!(!line.contains('\n'));
            let newline = i + 1 < lines.len() || text.ends_with('\n');
            let expected = if newline { format!("{line}\n") } else { line.clone() };
            assert_eq!(&text[offsets[i]..offsets[i + 1]], expected);
        }
    }
}
