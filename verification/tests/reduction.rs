use rsomics_epps_singleton::freq::{frequency_fields, FrequencyText};
use rsomics_epps_singleton::pairwise::{pairwise_plan, Reduction};
use rsomics_epps_singleton::percentile::percentile_bracket;

#[test]
fn pairwise_plan_by_size() {
    assert_eq!(pairwise_plan(0), Reduction::Empty);
    assert_eq!(pairwise_plan(5), Reduction::Sequential);
    assert_eq!(pairwise_plan(8), Reduction::Blocked { tail: 8 });
    assert_eq!(pairwise_plan(100), Reduction::Blocked { tail: 96 });
    assert_eq!(pairwise_plan(128), Reduction::Blocked { tail: 128 });
    assert_eq!(pairwise_plan(129), Reduction::Split { half: 64 });
    assert_eq!(pairwise_plan(1000), Reduction::Split { half: 496 });
    assert_eq!(pairwise_plan(1_000_000), Reduction::Split { half: 500_000 });
}

#[test]
fn percentile_indices() {
    assert_eq!(percentile_bracket(10, 25), (2, 3));
    assert_eq!(percentile_bracket(10, 75), (6, 7));
    assert_eq!(percentile_bracket(12, 75), (8, 9));
    assert_eq!(percentile_bracket(1, 75), (0, 0));
    assert_eq!(percentile_bracket(5, 100), (4, 4));
}

fn fields(s: &str) -> Vec<(String, String)> {
    match frequency_fields(s) {
        FrequencyText::Default => panic!("unexpected default"),
        FrequencyText::Fields(v) => v.into_iter().map(|f| (f.raw, f.trimmed)).collect(),
    }
}

#[test]
fn default_frequency_list() {
    assert!(matches!(frequency_fields("0.4,0.8"), FrequencyText::Default));
    assert!(matches!(frequency_fields(" 0.4,0.8\n"), FrequencyText::Default));
    assert!(!matches!(frequency_fields("0.4, 0.8"), FrequencyText::Default));
}

#[test]
fn frequency_pieces() {
    assert_eq!(
        fields("0.4, 0.8"),
        vec![("0.4".to_string(), "0.4".to_string()), (" 0.8".to_string(), "0.8".to_string())]
    );
    assert_eq!(
        fields("1,,2"),
        vec![
            ("1".to_string(), "1".to_string()),
            (String::new(), String::new()),
            ("2".to_string(), "2".to_string())
        ]
    );
    assert_eq!(fields(""), vec![(String::new(), String::new())]);
    assert_eq!(
        fields("\u{a0}1.5\u{3000},x "),
        vec![
            ("\u{a0}1.5\u{3000}".to_string(), "1.5".to_string()),
            ("x ".to_string(), "x".to_string())
        ]
    );
}

#[test]
fn pieces_rejoin_to_input() {
    let text = " 0.3,,0.6 ,\t0.9";
    let raw: Vec<String> = fields(text).into_iter().map(|(r, _)| r).collect();
    assert_eq!(raw.len(), 4);
    assert_eq!(raw.join(","), text);
    assert!(raw.iter().all(|r| !r.contains(',')));
}
