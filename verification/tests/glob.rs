use wasm_shim::glob::{regex_unescape_specials, GlobError as Error, GlobPattern, GlobPatternSet};

    #[test]
    fn glob_pattern_matches() -> Result<(), Error> {
        let fixtures = [
            (r"???", r"...", true),
            (r"...", r"???", false),
            (r"...", r"...", true),
            (r"\.\.\.", r"...", true),
            (r"\\.\\.\\.", r"\.\.\.", true),
            // do not use this for paths, because it does not take into account directories
            (r"C:\\*\\calc*.exe", r"C:\User\Alex\calc.exe", true),
            (
                r"the_asterisk_is_the_\*_character",
                r"the_asterisk_is_the_*_character",
                true,
            ),
            (
                r"the_asterisk_is_the_\*_character",
                r"the_asterisk_is_the_?_character",
                false,
            ),
            (
                r"midpoint_*_not_important",
                r"midpoint_0000_not_important",
                true,
            ),
            (r"anything_goes_after_*", r"anything_goes_after_", true),
            (r"*_anything_goes_before", r"_anything_goes_before", true),
            (
                r"*_anything_goes_before",
                r"sa786dn _anything_goes_before",
                true,
            ),
            (
                r"the_question_mark_can_work_as_a_?_character",
                r"the_question_mark_can_work_as_a_?_character",
                true,
            ),
            (
                r"the_question_mark_can_work_as_a_?_character",
                r"the_question_mark_can_work_as_a_!_character",
                true,
            ),
            (
                r"the_question_mark_can_work_as_a_?_character",
                r"the_question_mark_can_work_as_a_??_character",
                false,
            ),
            (
                r"anything_goes_after_*.",
                r"anything_goes_after_127jhas89,.",
                true,
            ),
            (r"match_one_of_more_+", r"match_one_of_more_123", true),
            (r"match_one_of_more_+.", r"match_one_of_more_.", false),
            (
                r"I_want_to_match_slashes_only:_1.\\_2.\\\\_3.\\\\\\_",
                r"I_want_to_match_slashes_only:_1.\_2.\\_3.\\\_",
                true,
            ),
            (
                r"I_want_to_match_mixed_use:_1.\*_2.\\*_3.\\\*_",
                r"I_want_to_match_mixed_use:_1.*_2.\hello_3.\*_",
                true,
            ),
        ];

        for &(pattern, input, expected) in &fixtures {
            let glob = GlobPattern::new(pattern)?;
            assert_eq!(glob.is_match(input), expected);
        }

        Ok(())
    }

        #[test]
        fn test_regex_unescape_specials() {
            let fixtures = [
                (
                    r"_*_\*_\\*_\\\*_\\\\*_\\\\\*_\\\\\\*_\\\\\\\*",
                    r"_.*_\*_\\.*_\\\*_\\\\.*_\\\\\*_\\\\\\.*_\\\\\\\*",
                ),
                (
                    r"*_\*_\\*_\\\*_\\\\*_\\\\\*_\\\\\\*_\\\\\\\*",
                    r".*_\*_\\.*_\\\*_\\\\.*_\\\\\*_\\\\\\.*_\\\\\\\*",
                ),
                (r"\*_i*_\*_i*_*", r"\*_i.*_\*_i.*_.*"),
                (
                    r"the_asterisk_is_the_\\*_character",
                    r"the_asterisk_is_the_\\.*_character",
                ),
                (r"just_a_slash_\\_", r"just_a_slash_\\_"),
                (r"just_a_slash_\\", r"just_a_slash_\\"),
                (r"just_slashes_\\\\", r"just_slashes_\\\\"),
                (
                    r"the_asterisk_is_the_\*_character",
                    r"the_asterisk_is_the_\*_character",
                ),
            ];

            for &(input, expected) in &fixtures {
                let escaped = regex::escape(input);
                let regex_s = regex_unescape_specials(&['*'], &escaped);
                assert_eq!(regex_s.as_str(), expected);
            }
        }

#[test]
fn glob_regex_is_anchored_and_escaped() {
    assert_eq!(GlobPattern::glob_pattern("a.b*"), r"\Aa\.b.*\z");
    assert_eq!(GlobPattern::glob_pattern("x?y+"), r"\Ax.?y.+\z");
}

#[test]
fn glob_set_matches_any_of_its_globs() {
    let set = GlobPatternSet::new(&vec!["*.example.com".to_string(), "api.*".to_string()])
        .expect("globs compile");
    assert!(set.is_match("www.example.com"));
    assert!(set.is_match("api.other.org"));
    assert!(!set.is_match("other.org"));
}

#[test]
fn glob_keeps_its_regex_source() {
    let glob = GlobPattern::new("a.b*").expect("glob compiles");
    assert_eq!(glob.to_regex_string(), r"\Aa\.b.*\z");
    assert_eq!(glob.regex().as_str(), r"\Aa\.b.*\z");
    assert_eq!(glob.into_inner().as_str(), r"\Aa\.b.*\z");
}

#[test]
fn glob_set_keeps_its_regex_sources_in_order() {
    let set = GlobPatternSet::new(&vec!["x?y+".to_string(), "a.b*".to_string()])
        .expect("globs compile");
    assert_eq!(set.patterns(), vec![r"\Ax.?y.+\z".to_string(), r"\Aa\.b.*\z".to_string()]);
    assert_eq!(set.regex_set().len(), 2);
    assert_eq!(set.into_inner().patterns().len(), 2);
}

#[test]
fn a_glob_without_wildcards_matches_only_itself() {
    let glob = GlobPattern::new("a.b(c)").expect("glob compiles");
    assert!(glob.is_match("a.b(c)"));
    assert!(!glob.is_match("axb(c)"));
    assert!(!glob.is_match("a.b(c)d"));
    assert!(!glob.is_match(""));
}
