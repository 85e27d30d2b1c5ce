use buffer_pool::query::page_param;

fn by_std(query: Option<&str>) -> Option<i32> {
    if let Some(query) = query {
        for pair in query.split("&") {
            let kv: Vec<&str> = pair.split("=").collect();
            if kv.len() == 2 && kv[0].eq("page") {
                if let Ok(page) = kv[1].parse::<i32>() {
                    return Some(page);
                }
            }
        }
    }
    None
}

fn param(query: &str) -> Option<i32> {
    page_param(Some(query.as_bytes()))
}

#[test]
fn page_is_read_from_the_query() {
    assert_eq!(Some(5), param("page=5"));
    assert_eq!(Some(0), param("page=0"));
    assert_eq!(Some(12), param("page=12"));
    assert_eq!(Some(7), param("page=007"));
    assert_eq!(Some(5), param("page=+5"));
    assert_eq!(Some(-5), param("page=-5"));
    assert_eq!(Some(0), param("page=-0"));
}

#[test]
fn request_without_query_names_no_page() {
    assert_eq!(None, page_param(None));
    assert_eq!(None, param(""));
    assert_eq!(None, param("&"));
    assert_eq!(None, param("="));
}

#[test]
fn first_pair_that_gives_a_page_decides() {
    assert_eq!(Some(7), param("a=1&page=7"));
    assert_eq!(Some(1), param("page=1&page=2"));
    assert_eq!(Some(3), param("page=x&page=3"));
    assert_eq!(Some(4), param("&page=4"));
    assert_eq!(Some(4), param("page=4&"));
    assert_eq!(Some(9), param("page=1=2&page&page=9&page=10"));
}

#[test]
fn malformed_pairs_give_no_page() {
    assert_eq!(None, param("page"));
    assert_eq!(None, param("page="));
    assert_eq!(None, param("page=+"));
    assert_eq!(None, param("page=-"));
    assert_eq!(None, param("page=1=2"));
    assert_eq!(None, param("page=12a"));
    assert_eq!(None, param("page= 1"));
    assert_eq!(None, param("page=1 "));
    assert_eq!(None, param("page=--1"));
    assert_eq!(None, param("page=+-1"));
    assert_eq!(None, param("Page=1"));
    assert_eq!(None, param("pages=1"));
    assert_eq!(None, param("pag=1"));
    assert_eq!(None, param("=1"));
    assert_eq!(None, param("page=1.0"));
    assert_eq!(None, param("page==1"));
}

#[test]
fn page_stays_within_its_range() {
    assert_eq!(Some(2147483647), param("page=2147483647"));
    assert_eq!(None, param("page=2147483648"));
    assert_eq!(Some(-2147483648), param("page=-2147483648"));
    assert_eq!(None, param("page=-2147483649"));
    assert_eq!(None, param("page=99999999999999999999999999"));
    assert_eq!(None, param("page=21474836470"));
    assert_eq!(Some(2147483647), param("page=+0000000002147483647"));
    assert_eq!(None, param("page=2147483648x"));
}

#[test]
fn page_param_agrees_with_std() {
    let pieces = [
        "", "page", "=", "&", "1", "-", "+", "0", "9", "a", "page=", "12", "2147483647",
        "2147483648", "-2147483648", "x=1",
    ];
    let mut count = 0;
    for a in pieces.iter() {
        for b in pieces.iter() {
            for c in pieces.iter() {
                let query = format!("{}{}{}", a, b, c);
                assert_eq!(by_std(Some(&query)), param(&query), "{}", query);
                count += 1;
            }
        }
    }
    assert_eq!(4096, count);
    assert_eq!(by_std(None), page_param(None));
}
