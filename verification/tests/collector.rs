use discord_image_downloader::collector::{Attachment, Budget, Collector, Message, summary};

fn img(url: &str) -> Attachment {
    Attachment { url: url.to_string(), width: Some(128) }
}

fn non_img(url: &str) -> Attachment {
    Attachment { url: url.to_string(), width: None }
}

fn msg(id: u64, attachments: Vec<Attachment>) -> Message {
    Message { id, attachments }
}

/// Scenario A: start boundary 0, quantity 0 (unbounded), one page of two
/// messages with one qualifying attachment each, then an empty page.
#[test]
fn scenario_unbounded_two_messages_then_exhaustion() {
    let mut c = Collector::new(0, 0);
    assert!(matches!(c.budget, Budget::Unbounded));
    let page = vec![
        msg(20, vec![img("https://cdn.example.com/attachments/1/20/a.png")]),
        msg(10, vec![img("https://cdn.example.com/attachments/1/10/b.png")]),
    ];
    let urls = c.process_page(&page);
    assert_eq!(urls.len(), 2);
    assert!(!c.done);
    assert_eq!(c.cursor, 20);
    let empty: Vec<Message> = Vec::new();
    let urls2 = c.process_page(&empty);
    assert!(urls2.is_empty());
    assert!(c.done);
    assert_eq!(c.collected_count(), 2);
    let report = summary(c.collected_count(), 0);
    assert_eq!(report, "Successfully saved 2 images!");
}

/// Scenario B: quantity 1, the first page has one message with two
/// qualifying attachments: both are persisted, the message is counted once,
/// and the run halts before a second page is fetched.
#[test]
fn scenario_budget_met_by_straddling_message() {
    let mut c = Collector::new(0, 1);
    assert!(matches!(c.budget, Budget::AtMost(1)));
    let page = vec![msg(
        7,
        vec![img("https://x/a/b/c/d/1/one.png"), img("https://x/a/b/c/d/1/two.png")],
    )];
    let urls = c.process_page(&page);
    assert_eq!(urls.len(), 2);
    assert_eq!(urls[0], "https://x/a/b/c/d/1/one.png");
    assert_eq!(urls[1], "https://x/a/b/c/d/1/two.png");
    assert_eq!(c.collected_count(), 1);
    assert!(c.done);
}

/// Scenario C: a message whose only attachment has no width yields no
/// persists and never enters the collected set.
#[test]
fn scenario_widthless_attachment_not_collected() {
    let mut c = Collector::new(0, 0);
    let page = vec![msg(5, vec![non_img("https://x/a/b/c/d/5/doc.pdf")])];
    let urls = c.process_page(&page);
    assert!(urls.is_empty());
    assert_eq!(c.collected_count(), 0);
    assert!(!c.done);
    assert_eq!(c.cursor, 5);
}

/// Scenario D: the first fetched page is empty, so nothing is persisted and
/// the summary says the channel holds no images.
#[test]
fn scenario_first_page_empty() {
    let mut c = Collector::new(0, 0);
    let empty: Vec<Message> = Vec::new();
    let urls = c.process_page(&empty);
    assert!(urls.is_empty());
    assert!(c.done);
    assert_eq!(c.collected_count(), 0);
    assert_eq!(summary(c.collected_count(), 0), "The channel doesn't contain any images!");
}

/// An empty result with a start boundary set mentions the time range.
#[test]
fn summary_mentions_time_range_when_bounded() {
    assert_eq!(
        summary(0, 123456),
        "The channel doesn't contain any images in the selected time range!"
    );
}

/// One collected message is reported in the singular.
#[test]
fn summary_singular() {
    assert_eq!(summary(1, 0), "Successfully saved 1 image!");
}

/// A large count renders all its digits.
#[test]
fn summary_large_count() {
    assert_eq!(summary(105, 0), "Successfully saved 105 images!");
}

/// A message already collected is not counted again when it reappears.
#[test]
fn duplicate_message_counted_once() {
    let mut c = Collector::new(0, 0);
    let page = vec![
        msg(9, vec![img("https://x/a/b/c/d/9/a.png")]),
        msg(9, vec![img("https://x/a/b/c/d/9/a.png")]),
    ];
    let urls = c.process_page(&page);
    assert_eq!(urls.len(), 2);
    assert_eq!(c.collected_count(), 1);
}

/// A non-zero budget stops the run before excess messages are persisted:
/// the check is made before each message, so later messages of the page are
/// not processed once the budget is met.
#[test]
fn budget_stops_mid_page() {
    let mut c = Collector::new(0, 2);
    let page = vec![
        msg(30, vec![img("https://x/a/b/c/d/30/a.png")]),
        msg(20, vec![img("https://x/a/b/c/d/20/b.png")]),
        msg(10, vec![img("https://x/a/b/c/d/10/c.png")]),
    ];
    let urls = c.process_page(&page);
    assert_eq!(urls.len(), 2);
    assert_eq!(c.collected_count(), 2);
    assert!(c.done);
}

/// With an unbounded budget a non-empty page never halts the run; the
/// cursor advances to the first (newest) entry of each page.
#[test]
fn cursor_advances_to_newest_across_pages() {
    let mut c = Collector::new(100, 0);
    let page1 = vec![
        msg(250, vec![img("https://x/a/b/c/d/250/a.png")]),
        msg(180, vec![]),
    ];
    c.process_page(&page1);
    assert!(!c.done);
    assert_eq!(c.cursor, 250);
    let page2 = vec![msg(400, vec![img("https://x/a/b/c/d/400/b.png")])];
    c.process_page(&page2);
    assert!(!c.done);
    assert_eq!(c.cursor, 400);
    assert_eq!(c.collected_count(), 2);
}

/// A message with no attachments at all contributes nothing.
#[test]
fn message_without_attachments_not_collected() {
    let mut c = Collector::new(0, 0);
    let page = vec![msg(44, vec![])];
    let urls = c.process_page(&page);
    assert!(urls.is_empty());
    assert_eq!(c.collected_count(), 0);
}

/// Mixed attachments: only the width-present ones are persisted, and the
/// message is still counted exactly once.
#[test]
fn mixed_attachments_filtered() {
    let mut c = Collector::new(0, 0);
    let page = vec![msg(
        8,
        vec![
            non_img("https://x/a/b/c/d/8/notes.txt"),
            img("https://x/a/b/c/d/8/pic.jpg"),
            non_img("https://x/a/b/c/d/8/more.txt"),
            img("https://x/a/b/c/d/8/pic2.jpg"),
        ],
    )];
    let urls = c.process_page(&page);
    assert_eq!(urls, vec!["https://x/a/b/c/d/8/pic.jpg", "https://x/a/b/c/d/8/pic2.jpg"]);
    assert_eq!(c.collected_count(), 1);
}

/// A message seen again on a later page is still counted only once.
#[test]
fn dedup_holds_across_pages() {
    let mut c = Collector::new(0, 0);
    let page1 = vec![msg(3, vec![img("https://x/a/b/c/d/3/a.png")])];
    c.process_page(&page1);
    let page2 = vec![
        msg(6, vec![img("https://x/a/b/c/d/6/b.png")]),
        msg(3, vec![img("https://x/a/b/c/d/3/a.png")]),
    ];
    let urls = c.process_page(&page2);
    assert_eq!(urls.len(), 2);
    assert_eq!(c.collected_count(), 2);
}
