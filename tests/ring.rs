use rsmc_core::ring::Ring;

#[test]
fn test_get_conn() {
    let a = "localhost:11211";
    let b = "localhost:11212";
    let c = "localhost:11213";
    let urls = vec![a.to_string(), b.to_string(), c.to_string()];
    let ring = Ring::new(urls);
    assert_eq!(a, ring.endpoint(ring.get_conn(a.as_bytes())).as_str());
    assert_eq!(b, ring.endpoint(ring.get_conn(b.as_bytes())).as_str());
    assert_eq!(c, ring.endpoint(ring.get_conn(c.as_bytes())).as_str());
    assert_eq!(c, ring.endpoint(ring.get_conn(b"")).as_str());
    assert_eq!(c, ring.endpoint(ring.get_conn(b"q")).as_str());
    assert_eq!(a, ring.endpoint(ring.get_conn(b"-")).as_str());
}

#[test]
fn test_boundary_behavior() {
    let urls = vec!["localhost:11211".to_string(), "localhost:11212".to_string()];
    let ring = Ring::new_with_size(urls, 2);
    assert_eq!(vec![(748582396, 1), (1636863978, 0)], *ring.buckets());
    assert_eq!("localhost:11212", ring.endpoint(ring.get_conn(b"q")).as_str());
}

#[test]
fn ring_is_deterministic() {
    let urls = vec!["a:1".to_string(), "b:2".to_string(), "c:3".to_string()];
    let r1 = Ring::new(urls.clone());
    let r2 = Ring::new(urls);
    assert_eq!(r1.buckets(), r2.buckets());
    assert_eq!(360, r1.bucket_count());
    for k in [&b"x"[..], b"abc", b"", b"some longer key"] {
        assert_eq!(r1.get_conn(k), r2.get_conn(k));
    }
}

#[test]
fn buckets_are_sorted_and_shared() {
    let urls = vec!["a:1".to_string(), "b:2".to_string(), "c:3".to_string()];
    let ring = Ring::new_with_size(urls, 10);
    let b = ring.buckets();
    assert_eq!(9, b.len());
    assert!(b.windows(2).all(|w| w[0] <= w[1]));
    for n in 0..3 {
        assert_eq!(3, b.iter().filter(|x| x.1 == n).count());
    }
}

#[test]
fn adding_an_endpoint_keeps_old_buckets() {
    let two = vec!["a:1".to_string(), "b:2".to_string()];
    let three = vec!["a:1".to_string(), "b:2".to_string(), "c:3".to_string()];
    let old = Ring::new_with_size(two, 360);
    let new = Ring::new_with_size(three, 360);
    let kept = new.buckets().iter().filter(|x| old.buckets().contains(x)).count();
    let gone = old.buckets().len() - old.buckets().iter().filter(|x| new.buckets().contains(x)).count();
    let added = new.buckets().len() - kept;
    assert_eq!(240, kept);
    assert_eq!(120, added);
    assert!(gone + added <= 360 / 3 + 360 / 2);
}

#[test]
fn too_few_buckets_leave_the_ring_empty() {
    let urls = vec!["a:1".to_string(), "b:2".to_string(), "c:3".to_string()];
    let ring = Ring::new_with_size(urls, 2);
    assert_eq!(0, ring.bucket_count());
}

#[test]
fn get_conns_groups_keys_by_node() {
    let urls = vec![
        "localhost:11211".to_string(),
        "localhost:11212".to_string(),
        "localhost:11213".to_string(),
    ];
    let ring = Ring::new(urls);
    let keys: Vec<Vec<u8>> = vec![
        b"localhost:11211".to_vec(),
        b"q".to_vec(),
        b"-".to_vec(),
        b"".to_vec(),
        b"localhost:11212".to_vec(),
    ];
    let batches = ring.get_conns(&keys);
    assert_eq!(
        vec![
            (0, vec![b"localhost:11211".to_vec(), b"-".to_vec()]),
            (1, vec![b"localhost:11212".to_vec()]),
            (2, vec![b"q".to_vec(), b"".to_vec()]),
        ],
        batches
    );
    let total: usize = batches.iter().map(|b| b.1.len()).sum();
    assert_eq!(keys.len(), total);
}
