use chunk_search::ranking::{paginate, sort_by_score_desc, total_pages, RankedId};
use chunk_search::scores::{apply_recency, apply_weight, fuse_scores, normalize_score};
use chunk_search::text::{contains_str, first_words, highlight_matches, squash_lines};

#[test]
fn normalization_scales_against_the_best_score() {
    assert_eq!(normalize_score(500_000, 1_000_000), 500_000);
    assert_eq!(normalize_score(250_000, 500_000), 500_000);
    assert_eq!(normalize_score(0, 500_000), 0);
    assert_eq!(normalize_score(0, 0), 0);
}

#[test]
fn fusion_combines_weighted_normalized_scores() {
    assert_eq!(fuse_scores(700_000, 1_000_000, 300_000, 0), 700_000);
    assert_eq!(fuse_scores(700_000, 500_000, 300_000, 1_000_000), 650_000);
    assert_eq!(fuse_scores(0, 1_000_000, 0, 1_000_000), 0);
}

#[test]
fn neutral_weight_leaves_scores_alone() {
    assert_eq!(apply_weight(123_456, 1000), 123_456);
    assert_eq!(apply_weight(100_000, 2000), 200_000);
    assert_eq!(apply_weight(100_000, 500), 50_000);
}

#[test]
fn recency_decays_with_age_and_never_raises() {
    let base = 600_000u64;
    let fresh = apply_recency(base, 1_000, 1_000);
    let month = apply_recency(base, 2_592_000, 0);
    let older = apply_recency(base, 10_000_000, 0);
    assert_eq!(fresh, base);
    assert_eq!(month, base / 2);
    assert!(older < month);
    // A timestamp in the future gets no adjustment.
    assert_eq!(apply_recency(base, 0, 50), base);
}

#[test]
fn sorting_is_stable_and_descending() {
    fn r(id: u128, score: u64) -> RankedId {
        RankedId { id: chunk_search::ids::ChunkId { value: id }, score }
    }
    let sorted = sort_by_score_desc(&vec![r(1, 10), r(2, 30), r(3, 30), r(4, 20)]);
    let ids: Vec<u128> = sorted.iter().map(|x| x.id.value).collect();
    // Equal scores keep their arrival order.
    assert_eq!(ids, vec![2, 3, 4, 1]);
}

#[test]
fn page_arithmetic_matches_the_ceiling_formula() {
    assert_eq!(total_pages(0), 0);
    assert_eq!(total_pages(1), 1);
    assert_eq!(total_pages(10), 1);
    assert_eq!(total_pages(11), 2);
    assert_eq!(total_pages(25), 3);
    let items: Vec<RankedId> = (0..25u64)
        .map(|n| RankedId { id: chunk_search::ids::ChunkId { value: n as u128 }, score: 100 - n })
        .collect();
    assert_eq!(paginate(&items, 1).len(), 10);
    assert_eq!(paginate(&items, 2).len(), 10);
    assert_eq!(paginate(&items, 3).len(), 5);
    assert_eq!(paginate(&items, 4).len(), 0);
    // A page below one reads as the first page.
    assert_eq!(paginate(&items, 0).len(), 10);
}

#[test]
fn substring_search_finds_and_rejects() {
    assert!(contains_str("the daily herald", "herald"));
    assert!(contains_str("abc", ""));
    assert!(!contains_str("abc", "abcd"));
    assert!(!contains_str("", "a"));
}

#[test]
fn highlighting_wraps_every_nonoverlapping_occurrence() {
    assert_eq!(highlight_matches("fox and fox", "fox"), "<b>fox</b> and <b>fox</b>");
    assert_eq!(highlight_matches("aaa", "aa"), "<b>aa</b>a");
    assert_eq!(highlight_matches("no match here", "fox"), "no match here");
    assert_eq!(highlight_matches("anything", ""), "anything");
}

#[test]
fn first_words_truncates_and_normalizes_spacing() {
    assert_eq!(first_words("a  b   c", 2), "a b");
    assert_eq!(first_words("one two", 5), "one two");
    assert_eq!(first_words("   ", 3), "");
    assert_eq!(first_words("", 3), "");
}

#[test]
fn line_squashing_flattens_breaks_and_trims_the_end() {
    assert_eq!(squash_lines("one\ntwo\r\nthree\n"), "one two three");
    assert_eq!(squash_lines("a\n\nb"), "a  b");
    assert_eq!(squash_lines("plain"), "plain");
    assert_eq!(squash_lines("  \n"), "");
}
