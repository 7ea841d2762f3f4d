use mirror_pool::trace::{demo_pool, FundingCounts, Member, PoolSample};

fn pool(sources: &[&str]) -> PoolSample {
    PoolSample {
        members: sources
            .iter()
            .enumerate()
            .map(|(i, s)| Member { wallet: format!("wallet{i}"), funding_source: s.to_string() })
            .collect(),
    }
}

#[test]
fn diverse_funding_counts() {
    let sources: Vec<String> = (0..30).map(|i| format!("src{i}")).collect();
    let refs: Vec<&str> = sources.iter().map(String::as_str).collect();
    let c = pool(&refs).funding_counts();
    assert_eq!(
        c,
        FundingCounts { advertised_k: 30, distinct_sources: 30, largest_class: 1, self_fill_floor: 29 }
    );
}

#[test]
fn concentrated_funding_counts() {
    let mut v: Vec<String> = vec!["exchangeA".to_string(); 15];
    v.extend((0..15).map(|i| format!("s{i}")));
    let refs: Vec<&str> = v.iter().map(String::as_str).collect();
    let c = pool(&refs).funding_counts();
    assert_eq!(c.advertised_k, 30);
    assert_eq!(c.largest_class, 15);
    assert_eq!(c.self_fill_floor, 15);
    assert_eq!(c.distinct_sources, 16);
}

#[test]
fn self_filled_pool_counts() {
    let mut v = vec!["whale".to_string(); 29];
    v.push("victim".to_string());
    let refs: Vec<&str> = v.iter().map(String::as_str).collect();
    let c = pool(&refs).funding_counts();
    assert_eq!(c.advertised_k, 30);
    assert_eq!(c.self_fill_floor, 1);
    assert_eq!(c.distinct_sources, 2);
}

#[test]
fn empty_pool_counts_zero() {
    let c = PoolSample { members: vec![] }.funding_counts();
    assert_eq!(
        c,
        FundingCounts { advertised_k: 0, distinct_sources: 0, largest_class: 0, self_fill_floor: 0 }
    );
    assert!(PoolSample { members: vec![] }.class_sizes().is_empty());
}

#[test]
fn class_sizes_lists_each_source_once_sorted_by_source() {
    let sizes = pool(&["b", "a", "b", "c", "b", "a"]).class_sizes();
    assert_eq!(sizes, vec![("a".to_string(), 2), ("b".to_string(), 3), ("c".to_string(), 1)]);
}

#[test]
fn class_sizes_order_sources_byte_wise() {
    let sizes = pool(&["b", "ab", "a", "B", "é"]).class_sizes();
    let names: Vec<&str> = sizes.iter().map(|(n, _)| n.as_str()).collect();
    assert_eq!(names, vec!["B", "a", "ab", "b", "é"]);
}

#[test]
fn demo_pool_is_the_concentrated_example() {
    let p = demo_pool();
    assert_eq!(p.members.len(), 30);
    assert_eq!(p.members[0].wallet, "a0");
    assert_eq!(p.members[13].funding_source, "kraken-hot");
    assert_eq!(p.members[14].wallet, "b0");
    assert_eq!(p.members[19].funding_source, "coinbase-hot");
    assert_eq!(p.members[29].wallet, "c9");
    assert_eq!(p.members[29].funding_source, "indep-9");
    let c = p.funding_counts();
    assert_eq!(
        c,
        FundingCounts { advertised_k: 30, distinct_sources: 12, largest_class: 14, self_fill_floor: 16 }
    );
    // Every class size sums back to k, and k <= largest * distinct.
    let total: usize = p.class_sizes().iter().map(|(_, n)| n).sum();
    assert_eq!(total, 30);
    assert!(c.advertised_k <= c.largest_class * c.distinct_sources);
}
