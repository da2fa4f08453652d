use wiki_game::explorer::record_page;
use wiki_game::graph::LinksGraph;
use wiki_game::links::{article_links, dedup_links, has_colon, links_from_page, parse_page};

const FILTER_PAGE: &str = r#"<html><body>
<a href="/wiki/Real">Real</a>
<a href="/wiki/Category:X">Cat</a>
<a href="/wiki/File:Y.png">File</a>
<a href="/other">Other</a>
</body></html>"#;

fn strings(v: &[&str]) -> Vec<String> {
    v.iter().map(|s| s.to_string()).collect()
}

#[test]
fn extractor_keeps_only_article_links() {
    assert_eq!(parse_page(FILTER_PAGE), strings(&["/wiki/Real"]));
}

#[test]
fn extractor_drops_consecutive_repeats_only() {
    let page = r#"<p><a href="/wiki/A">1</a><a href="/wiki/A">2</a><a href="/wiki/B">3</a><a href="/wiki/A">4</a></p>"#;
    assert_eq!(parse_page(page), strings(&["/wiki/A", "/wiki/A", "/wiki/B", "/wiki/A"]));
    assert_eq!(links_from_page(page), strings(&["/wiki/A", "/wiki/B", "/wiki/A"]));
}

#[test]
fn filter_and_dedup_on_plain_values() {
    let hrefs = strings(&["/wiki/X", "/wiki/Help:Y", "/w/index.php", "/wiki/Z"]);
    assert_eq!(article_links(hrefs), strings(&["/wiki/X", "/wiki/Z"]));
    assert_eq!(dedup_links(strings(&["a", "a", "b", "b", "a"])), strings(&["a", "b", "a"]));
    assert_eq!(dedup_links(vec![]), Vec::<String>::new());
    assert!(has_colon("/wiki/Talk:X"));
    assert!(!has_colon("/wiki/X"));
}

#[test]
fn one_hop_path_from_fixture_page() {
    let base = String::from("https://x");
    let page = r#"<html><body><a href="/wiki/B">B</a></body></html>"#;
    let mut g = LinksGraph::new();
    let links = links_from_page(page);
    let fresh = record_page(&mut g, "https://x/wiki/A", &base, &links);
    assert_eq!(fresh, strings(&["/wiki/B"]));
    let p = g
        .shortest_path_to_target(String::from("/wiki/A"), String::from("/wiki/B"))
        .unwrap();
    assert_eq!(p, strings(&["/wiki/A", "/wiki/B"]));
}

#[test]
fn record_page_reports_only_unknown_links() {
    let base = String::from("https://x");
    let mut g = LinksGraph::new();
    g.add_edge(&String::from("/wiki/A"), &String::from("/wiki/K"));
    let links = strings(&["/wiki/K", "/wiki/N", "/wiki/N"]);
    let fresh = record_page(&mut g, "/wiki/P", &base, &links);
    assert_eq!(fresh, strings(&["/wiki/N", "/wiki/N"]));
    assert_eq!(g.edge_count(), 4);
    assert_eq!(g.node_count(), 4);
    assert!(g.node_exists(&String::from("/wiki/P")));
}
