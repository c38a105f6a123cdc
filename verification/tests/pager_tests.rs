use std::rc::Rc;

use sqlite3_editor::pager::{CacheParam, Pager, PagerCache, PagerCacheEntry, RowRole};
use sqlite3_editor::records::{ColumnarBuffer, Records};

const QUERY: &str = "SELECT * FROM t LIMIT ? OFFSET ?";

fn page(limit: i64, offset: i64) -> Vec<CacheParam> {
    vec![CacheParam::I64(limit), CacheParam::I64(offset)]
}

fn cols() -> Vec<String> {
    vec!["x".to_owned(), "y".to_owned()]
}

#[test]
fn paged_queries_are_recognized() {
    assert_eq!(Pager::paging(QUERY, &page(3, 1)), Some((3, 1)));
    assert_eq!(Pager::paging(QUERY, &page(-1, 0)), None);
    assert_eq!(Pager::paging(QUERY, &page(0, -1)), None);
    assert_eq!(Pager::paging(QUERY, &[CacheParam::String("1".into()), CacheParam::String("1".into())]), None);
    assert_eq!(Pager::paging("SELECT * FROM t", &page(3, 1)), None);
    assert_eq!(Pager::paging(QUERY, &[CacheParam::I64(1)]), None);
}

#[test]
fn repeated_page_is_read_from_the_cache() {
    let mut pager = Pager::new();
    assert_eq!(pager.sync_data_version(1), 0);
    let params = page(3, 0);
    let (i, hit) = pager.cached_page(QUERY, &params, 3, 0);
    assert!(hit.is_none());
    pager.cache.set_columns_if_not_set_yet(i, cols());
    pager.cache.insert_row(i, 0, &vec![vec![0xa1, b'a'], vec![0xa1, b'b']]);
    pager.cache.insert_row(i, 1, &vec![vec![0xa1, b'c'], vec![0xa1, b'd']]);
    pager.cache.set_num_records(i, 2);
    let (j, hit) = pager.cached_page(QUERY, &params, 3, 0);
    assert_eq!(i, j);
    let records = hit.unwrap();
    assert_eq!(records.col_buf(), &[vec![0xa1, b'a', 0xa1, b'c'], vec![0xa1, b'b', 0xa1, b'd']]);
    assert_eq!(records.n_rows(), 2);
    assert_eq!(records.columns(), Rc::new(cols()));
}

#[test]
fn page_with_unknown_rows_is_missed_until_all_are_cached() {
    let mut e = PagerCacheEntry::new(QUERY.to_owned(), vec![], 0);
    // Rows are cached before the columns are known, as a query's rows come
    // before its column names.
    e.insert(0, &vec![vec![1]]);
    assert!(!e.has_range(0, 1));
    e.set_columns_if_not_set_yet(vec!["x".to_owned()]);
    assert!(e.has_range(0, 1));
    // A row with another number of cells than columns is no part of a page.
    e.insert(0, &vec![vec![1], vec![2]]);
    assert!(!e.has_range(0, 1));
    e.insert(1, &vec![vec![1]]);
    e.insert(2, &vec![vec![2]]);
    assert!(e.get_range(0, 2).is_none());
    assert_eq!(e.get_range(1, 2).unwrap(), Records::new(vec![vec![1, 2]], 2, Rc::new(vec!["x".to_owned()])));
    assert!(e.has_range(1, 2));
    assert!(!e.has_range(1, 3));
    e.set_num_records(3);
    assert!(e.has_range(1, 3));
    assert_eq!(e.add_limit_to_offset(1, 10), 3);
    assert_eq!(e.add_limit_to_offset(5, 10), 5);
}

#[test]
fn different_parameters_have_different_entries() {
    let mut cache = PagerCache::new();
    let a = cache.entry(QUERY, &[CacheParam::String("a".into()), CacheParam::I64(1), CacheParam::I64(0)]);
    let b = cache.entry(QUERY, &[CacheParam::String("b".into()), CacheParam::I64(1), CacheParam::I64(0)]);
    let a2 = cache.entry(QUERY, &[CacheParam::String("a".into()), CacheParam::I64(5), CacheParam::I64(7)]);
    assert_ne!(a, b);
    assert_eq!(a, a2);
    assert_eq!(cache.len(), 2);
}

#[test]
fn least_recently_used_entry_is_evicted_first() {
    let mut cache = PagerCache::new();
    cache.entry("q1 LIMIT ? OFFSET ?", &page(1, 0));
    cache.entry("q2 LIMIT ? OFFSET ?", &page(1, 0));
    cache.entry("q1 LIMIT ? OFFSET ?", &page(1, 0));
    cache.dequeue();
    assert_eq!(cache.len(), 1);
    assert!(cache.get(0).is_for("q1 LIMIT ? OFFSET ?", &[]));
}

#[test]
fn cache_over_its_limit_evicts_entries() {
    let mut pager = Pager::new();
    pager.config.cache_limit_bytes = 0;
    pager.sync_data_version(1);
    pager.cached_page(QUERY, &page(3, 3), 3, 3);
    assert_eq!(pager.sync_data_version(1), 1);
    assert_eq!(pager.cache.len(), 0);
}

#[test]
fn new_data_version_clears_the_cache() {
    let mut pager = Pager::new();
    pager.sync_data_version(1);
    pager.cached_page(QUERY, &page(3, 3), 3, 3);
    assert!(pager.total_cache_size_bytes() > 0);
    assert_eq!(pager.sync_data_version(2), 0);
    assert_eq!(pager.data_version(), Some(2));
    assert_eq!(pager.total_cache_size_bytes(), 0);
}

#[test]
fn pages_are_widened_by_the_margins() {
    let mut pager = Pager::new();
    pager.config.margin_start = 5;
    pager.config.margin_end = 100;
    assert_eq!(pager.widened_page(10, 3), Some((113, 0)));
    assert_eq!(pager.widened_page(10, 30), Some((115, 25)));
    assert_eq!(pager.widened_page(i64::MAX as u64, 0), None);
}

#[test]
fn rows_are_placed_around_the_page() {
    assert_eq!(Pager::row_role(2, 3, 3), RowRole::StartMargin);
    assert_eq!(Pager::row_role(3, 3, 3), RowRole::Page);
    assert_eq!(Pager::row_role(5, 3, 3), RowRole::Page);
    assert_eq!(Pager::row_role(6, 3, 3), RowRole::EndMargin);
    assert_eq!(Pager::backward_page(3, 3), (3, 0));
    assert_eq!(Pager::backward_page(3, 10), (3, 0));
    assert_eq!(Pager::backward_page(30, 10), (10, 20));
}

#[test]
fn end_margin_budget_is_half_the_per_query_limit() {
    let mut pager = Pager::new();
    pager.config.per_query_cache_limit_bytes = 100;
    assert!(pager.end_margin_within_budget(1000, 1049));
    assert!(!pager.end_margin_within_budget(1000, 1050));
    assert!(pager.end_margin_within_budget(1000, 10));
}

#[test]
fn pages_fit_when_their_end_is_representable() {
    assert!(Pager::page_fits(0, 10));
    assert!(Pager::page_fits(u64::MAX - 10, 10));
    assert!(!Pager::page_fits(u64::MAX - 9, 10));
    assert!(!Pager::page_fits(0, 0x8000_0000_0000_0000));
}

#[test]
fn short_reads_fix_the_number_of_rows() {
    let mut cache = PagerCache::new();
    let i = cache.entry(QUERY, &page(10, 0));
    // As many rows as were asked for: the number of rows stays unknown.
    cache.rows_ended(i, 10, 0, 10);
    assert_eq!(cache.get(i).add_limit_to_offset(0, 100), 100);
    // Fewer rows than asked for: the query has `current` rows.
    cache.rows_ended(i, 7, 0, 10);
    assert_eq!(cache.get(i).add_limit_to_offset(0, 100), 7);
    assert_eq!(cache.get(i).add_limit_to_offset(20, 5), 20);
}

#[test]
fn pages_have_at_most_limit_rows() {
    let mut e = PagerCacheEntry::new(QUERY.to_owned(), vec![], 0);
    assert_eq!(e.add_limit_to_offset(5, 10), 15);
    e.set_num_records(12);
    assert_eq!(e.add_limit_to_offset(5, 10), 12);
    assert_eq!(e.add_limit_to_offset(0, 10), 10);
    assert_eq!(e.add_limit_to_offset(20, 10), 20);
}

#[test]
fn rows_of_the_page_go_to_its_columns_and_every_row_to_the_cache() {
    let mut cache = PagerCache::new();
    let i = cache.entry(QUERY, &page(1, 1));
    let mut buf = ColumnarBuffer::default();
    cache.take_row(i, 0, RowRole::StartMargin, &vec![vec![0xa1, b'a'], vec![0xa1, b'b']], &mut buf);
    cache.take_row(i, 1, RowRole::Page, &vec![vec![0xa1, b'c'], vec![0xa1, b'd']], &mut buf);
    cache.take_row(i, 2, RowRole::EndMargin, &vec![vec![0xa1, b'e'], vec![0xa1, b'f']], &mut buf);
    assert_eq!(buf.finish(2), vec![vec![0xa1, b'c'], vec![0xa1, b'd']]);
    cache.set_columns_if_not_set_yet(i, cols());
    assert!(cache.get(i).has_range(0, 3));
}

#[test]
fn appended_rows_extend_their_columns() {
    let mut buf = ColumnarBuffer::default();
    buf.append_row(&vec![vec![1], vec![2]]);
    buf.append_row(&vec![vec![3], vec![4], vec![5]]);
    assert_eq!(buf.finish(3), vec![vec![1, 3], vec![2, 4], vec![5]]);
}

#[test]
fn inserted_rows_count_their_size() {
    let mut e = PagerCacheEntry::new(QUERY.to_owned(), vec![], 0);
    let before = e.total_size_bytes();
    e.insert(7, &vec![vec![1, 2], vec![3]]);
    let encoded = rmp_serde::to_vec(&vec![vec![1u8, 2], vec![3u8]]).unwrap();
    assert_eq!(e.total_size_bytes(), before + std::mem::size_of::<Vec<u8>>() as u64 + encoded.len() as u64);
    e.set_columns_if_not_set_yet(vec!["a".to_owned(), "b".to_owned()]);
    assert_eq!(e.get_range(7, 1).unwrap().col_buf(), &[vec![1, 2], vec![3]]);
}
