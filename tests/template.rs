use dynamic_string::template::{compile, Segment};

fn st(s: &str) -> Segment {
    Segment::Static(s.to_string())
}

fn dy(s: &str) -> Segment {
    Segment::Dynamic(s.to_string())
}

#[test]
fn compiles_uptime_template() {
    assert_eq!(
        compile("Uptime: {{uptime -p}}"),
        vec![st("Uptime: "), dy("uptime -p")]
    );
}

#[test]
fn compiles_original_example_template() {
    assert_eq!(
        compile("Uptime: {{1000:uptime -p | cut -d ' ' -f2-}}"),
        vec![st("Uptime: "), dy("1000:uptime -p | cut -d ' ' -f2-")]
    );
}

#[test]
fn adjacent_expressions_have_no_literal_between() {
    assert_eq!(compile("{{a}}{{b}}"), vec![dy("a"), dy("b")]);
}

#[test]
fn empty_template_has_no_segments() {
    assert_eq!(compile(""), Vec::<Segment>::new());
}

#[test]
fn unterminated_expression_runs_to_end() {
    assert_eq!(compile("{{unterminated"), vec![dy("unterminated")]);
}

#[test]
fn single_closing_brace_stays_in_expression() {
    assert_eq!(compile("a{{b}"), vec![st("a"), dy("b}")]);
}

#[test]
fn template_without_expressions_is_one_literal() {
    assert_eq!(compile("plain } text {"), vec![st("plain } text {")]);
}

#[test]
fn literal_between_and_after_expressions() {
    assert_eq!(
        compile("{{x}}-{{y}} end"),
        vec![dy("x"), st("-"), dy("y"), st(" end")]
    );
}

#[test]
fn empty_expression() {
    assert_eq!(compile("a{{}}b"), vec![st("a"), dy(""), st("b")]);
}

#[test]
fn multibyte_text_is_kept_whole() {
    assert_eq!(
        compile("é→{{ü}}ß"),
        vec![st("é→"), dy("ü"), st("ß")]
    );
}

#[test]
fn closing_pair_ends_at_first_occurrence() {
    assert_eq!(compile("{{a}}}b"), vec![dy("a"), st("}b")]);
}
