use cani::data::{Browser, CanIUse, Feature};
use cani::errors::{into_write_error, Error};
use cani::render::{decimal_string, percent_string, use_feature, Style, StyledLine};

fn browser(name: &str, slots: &[Option<&str>]) -> Browser {
    Browser {
        browser: name.to_string(),
        versions: slots.iter().map(|s| s.map(|v| v.to_string())).collect(),
    }
}

fn feature(
    title: &str,
    description: &str,
    spec_url: &str,
    perc_y: u32,
    perc_a: u32,
    stats: &[(&str, &[(&str, &str)])],
) -> Feature {
    Feature {
        title: title.to_string(),
        description: description.to_string(),
        spec_url: spec_url.to_string(),
        usage_perc_y: perc_y,
        usage_perc_a: perc_a,
        links: Vec::new(),
        stats: stats
            .iter()
            .map(|(b, vs)| {
                (
                    b.to_string(),
                    vs.iter().map(|(v, s)| (v.to_string(), s.to_string())).collect(),
                )
            })
            .collect(),
    }
}

fn sample_corpus() -> CanIUse {
    CanIUse {
        data: vec![(
            "flexbox".to_string(),
            feature(
                "Flexbox",
                "Flexible boxes.",
                "https://example.test/flex",
                9720,
                153,
                &[("firefox", &[("1", "y"), ("2", "y"), ("3", "n")])],
            ),
        )],
        agents: vec![("firefox".to_string(), browser("Firefox", &[Some("1"), Some("2"), Some("3")]))],
    }
}

fn plain_text(line: &StyledLine) -> String {
    assert_eq!(line.segments.len(), 1);
    assert_eq!(line.segments[0].style, Style::Plain);
    line.segments[0].text.clone()
}

#[test]
fn renders_a_full_report() {
    let corpus = sample_corpus();
    let lines = use_feature(&corpus, &"flexbox".to_string()).unwrap();
    assert_eq!(lines.len(), 11);

    assert_eq!(plain_text(&lines[0]), "Feature: Flexbox");
    assert_eq!(plain_text(&lines[1]), "Spec: https://example.test/flex");

    let pct = &lines[2];
    assert_eq!(pct.segments.len(), 5);
    assert_eq!(pct.segments[0].text, "Global Support: ");
    assert_eq!(pct.segments[0].style, Style::Plain);
    assert_eq!(pct.segments[1].text, "97.2%");
    assert_eq!(pct.segments[1].style, Style::FullSupport);
    assert_eq!(pct.segments[2].text, " + ");
    assert_eq!(pct.segments[2].style, Style::Plain);
    assert_eq!(pct.segments[3].text, "1.53%");
    assert_eq!(pct.segments[3].style, Style::PartialSupport);
    assert_eq!(pct.segments[4].text, " = 98.73%");
    assert_eq!(pct.segments[4].style, Style::Plain);

    let full_legend = &lines[3];
    assert_eq!(full_legend.segments.len(), 3);
    assert_eq!(full_legend.segments[0].text, " - ");
    assert_eq!(full_legend.segments[1].text, "Full");
    assert_eq!(full_legend.segments[1].style, Style::FullSupport);
    assert_eq!(full_legend.segments[2].text, " support");

    let partial_legend = &lines[4];
    assert_eq!(partial_legend.segments.len(), 3);
    assert_eq!(partial_legend.segments[0].text, " - ");
    assert_eq!(partial_legend.segments[1].text, "Partial");
    assert_eq!(partial_legend.segments[1].style, Style::PartialSupport);
    assert_eq!(partial_legend.segments[2].text, " support");

    assert_eq!(plain_text(&lines[5]), "Flexible boxes.");
    assert!(lines[6].segments.is_empty());

    assert_eq!(plain_text(&lines[7]), "Firefox");
    assert_eq!(plain_text(&lines[8]), "1 → 2 = y");
    assert_eq!(plain_text(&lines[9]), "3 = n");
    assert!(lines[10].segments.is_empty());
}

#[test]
fn total_is_computed_from_the_parts() {
    let mut corpus = sample_corpus();
    corpus.data.push((
        "grid".to_string(),
        feature("Grid", "Grids.", "https://example.test/grid", 250, 25, &[]),
    ));
    let lines = use_feature(&corpus, &"grid".to_string()).unwrap();
    let pct = &lines[2];
    assert_eq!(pct.segments[1].text, "2.5%");
    assert_eq!(pct.segments[3].text, "0.25%");
    assert_eq!(pct.segments[4].text, " = 2.75%");
}

#[test]
fn missing_feature_key_is_feature_not_found() {
    let corpus = sample_corpus();
    match use_feature(&corpus, &"nonexistent".to_string()) {
        Err(Error::FeatureNotFound(key)) => assert_eq!(key, "nonexistent"),
        _ => panic!("expected FeatureNotFound"),
    }
}

#[test]
fn unregistered_browser_is_browser_not_found() {
    let mut corpus = sample_corpus();
    corpus.data.push((
        "marquee".to_string(),
        feature("Marquee", "Scrolls.", "https://example.test/m", 0, 0, &[(
            "netscape",
            &[("4", "y")],
        )]),
    ));
    match use_feature(&corpus, &"marquee".to_string()) {
        Err(Error::BrowserNotFound(key)) => assert_eq!(key, "netscape"),
        _ => panic!("expected BrowserNotFound"),
    }
}

#[test]
fn version_without_stats_entry_aborts_the_render() {
    let mut corpus = sample_corpus();
    corpus.data.push((
        "columns".to_string(),
        feature("Columns", "Columns.", "https://example.test/c", 0, 0, &[(
            "firefox",
            &[("1", "y"), ("3", "y")],
        )]),
    ));
    match use_feature(&corpus, &"columns".to_string()) {
        Err(Error::LookupError { version, browser }) => {
            assert_eq!(version, "2");
            assert_eq!(browser, "firefox");
        },
        _ => panic!("expected LookupError"),
    }
}

#[test]
fn browser_blocks_follow_the_stats_order() {
    let corpus = CanIUse {
        data: vec![(
            "feat".to_string(),
            feature("Feat", "Desc.", "https://example.test/f", 100, 0, &[
                ("alpha", &[("1", "y")]),
                ("beta", &[("2", "n")]),
            ]),
        )],
        agents: vec![
            ("alpha".to_string(), browser("Alpha", &[Some("1")])),
            ("beta".to_string(), browser("Beta", &[Some("2")])),
        ],
    };
    let lines = use_feature(&corpus, &"feat".to_string()).unwrap();
    assert_eq!(plain_text(&lines[7]), "Alpha");
    assert_eq!(plain_text(&lines[8]), "1 = y");
    assert!(lines[9].segments.is_empty());
    assert_eq!(plain_text(&lines[10]), "Beta");
    assert_eq!(plain_text(&lines[11]), "2 = n");
    assert!(lines[12].segments.is_empty());
}

#[test]
fn feature_without_stats_renders_header_only() {
    let mut corpus = sample_corpus();
    corpus.data.push((
        "plain".to_string(),
        feature("Plain", "Nothing else.", "https://example.test/p", 0, 0, &[]),
    ));
    let lines = use_feature(&corpus, &"plain".to_string()).unwrap();
    assert_eq!(lines.len(), 7);
    assert_eq!(plain_text(&lines[0]), "Feature: Plain");
    assert_eq!(plain_text(&lines[5]), "Nothing else.");
    assert!(lines[6].segments.is_empty());
}

#[test]
fn browser_with_only_absent_slots_renders_an_empty_block() {
    let corpus = CanIUse {
        data: vec![(
            "feat".to_string(),
            feature("Feat", "Desc.", "https://example.test/f", 0, 0, &[("ghost", &[])]),
        )],
        agents: vec![("ghost".to_string(), browser("Ghost", &[None, None]))],
    };
    let lines = use_feature(&corpus, &"feat".to_string()).unwrap();
    assert_eq!(lines.len(), 9);
    assert_eq!(plain_text(&lines[7]), "Ghost");
    assert!(lines[8].segments.is_empty());
}

#[test]
fn decimal_rendering_is_exact() {
    assert_eq!(decimal_string(0), "0");
    assert_eq!(decimal_string(7), "7");
    assert_eq!(decimal_string(10), "10");
    assert_eq!(decimal_string(987654), "987654");
}

#[test]
fn percent_rendering_trims_trailing_zeros() {
    assert_eq!(percent_string(0), "0");
    assert_eq!(percent_string(5), "0.05");
    assert_eq!(percent_string(50), "0.5");
    assert_eq!(percent_string(9700), "97");
    assert_eq!(percent_string(9740), "97.4");
    assert_eq!(percent_string(9743), "97.43");
    assert_eq!(percent_string(10000), "100");
}

#[test]
fn sync_propagates_the_first_failure() {
    assert!(matches!(cani::sync::sync(Ok(()), Some(Ok(()))), Ok(())));
    assert!(matches!(
        cani::sync::sync(Ok(()), Some(Err(Error::WriteError))),
        Err(Error::WriteError)
    ));
    assert!(matches!(cani::sync::sync(Err(Error::FetchError), None), Err(Error::FetchError)));
}

#[test]
fn any_cause_becomes_a_write_error() {
    assert!(matches!(into_write_error("disk full"), Error::WriteError));
    assert!(matches!(into_write_error(7u32), Error::WriteError));
}
