use tilings::error::Error;
use tilings::membership::{check_point_counts, find_rows, grouped_by, members_by_parent, polygon_point_posts};

fn not_found() -> Error {
    Error::Diesel(String::from("Record not found"))
}

#[test]
fn children_grouped_by_parent() {
    assert_eq!(vec![vec![1, 3], vec![0, 2], vec![]], grouped_by(&vec![7, 8, 9], &vec![8, 7, 8, 7]));
    // a repeated parent id keeps its last place
    assert_eq!(vec![vec![], vec![0]], grouped_by(&vec![7, 7], &vec![7]));
}

#[test]
fn rows_found_by_key() {
    assert_eq!(Ok(vec![2, 0]), find_rows(&vec![30, 10], &vec![10, 20, 30]));
    assert_eq!(Err(not_found()), find_rows(&vec![40], &vec![10, 20, 30]));
}

#[test]
fn members_of_parents() {
    // labels: rows (parent, label id); table of fetched labels by id
    let members = members_by_parent(&vec![1, 2], &vec![2, 1, 2], &vec![500, 600, 700], &vec![700, 600, 500]);
    assert_eq!(Ok(vec![vec![1], vec![2, 0]]), members);
    assert_eq!(Err(not_found()), members_by_parent(&vec![1], &vec![1], &vec![9], &vec![700]));
}

#[test]
fn point_counts_must_match() {
    assert_eq!(Ok(()), check_point_counts(3, 3));
    assert_eq!(Err(not_found()), check_point_counts(3, 2));
}

#[test]
fn polygon_point_rows_in_order() {
    let posts = polygon_point_posts(4, &vec![30, 31, 32]);
    assert_eq!(3, posts.len());
    for (i, post) in posts.iter().enumerate() {
        assert_eq!(i as i32, post.sequence);
        assert_eq!(4, post.polygon_id);
        assert_eq!(30 + i as i32, post.point_id);
        assert!(!post.is_locked);
    }
}
