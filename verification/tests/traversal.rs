use wrappinghashset::WrappingHashSet;

#[test]
fn test_wrapping_hashset() {
    let mut hs: WrappingHashSet<&str> = WrappingHashSet::new();
    let mut keys_as_found: Vec<&str> = Vec::new();
    hs.insert("foo");
    hs.insert("bar");
    hs.insert("baz");
    {
        for i in hs.iter() {
            keys_as_found.push(i);
        }
        let mut z = keys_as_found.clone();
        z.sort();
        // It returned all 3
        assert_eq!("bar", z[0]);
        assert_eq!("baz", z[1]);
        assert_eq!("foo", z[2]);
    }
    // Now test wrap
    {
        for i in hs.iter() {
            assert_eq!(keys_as_found[0], i, "First Iter returns first element");
            break;
        }
    }
    {
        for i in hs.iter() {
            assert_eq!(
                keys_as_found[1], i,
                "Second Iter returns second element first"
            );
            break;
        }
    }
    {
        for i in hs.iter() {
            assert_eq!(
                keys_as_found[2], i,
                "Third Iter returns third element first"
            );
            break;
        }
    }
    // Now it should wrap because we have a new iterator
    {
        for i in hs.iter() {
            assert_eq!(
                keys_as_found[0], i,
                "Fourth Iter returns first element first"
            );
            break;
        }
    }
    {
        let mut iter = hs.iter();
        assert_eq!(Some(keys_as_found[1]), iter.next());
        assert_eq!(Some(keys_as_found[2]), iter.next());
        assert_eq!(Some(keys_as_found[0]), iter.next());
        assert_eq!(None, iter.next(), "Should wrap only once");
    }
    {
        let mut iter = hs.iter();
        assert_eq!(Some(keys_as_found[1]), iter.next());
        assert_eq!(Some(keys_as_found[2]), iter.next());
        assert_eq!(Some(keys_as_found[0]), iter.next());
        assert_eq!(None, iter.next(), "Should repeat");
    }
    // Now use it partially
    {
        let mut iter = hs.iter();
        assert_eq!(Some(keys_as_found[1]), iter.next());
    }
    // Still picks up where it was
    {
        let mut iter = hs.iter();
        assert_eq!(Some(keys_as_found[2]), iter.next());
    }
    hs.remove(&keys_as_found[1]);
    {
        let mut j = 0;
        for i in hs.iter() {
            assert_ne!(keys_as_found[1], i, "Elements should not reappear");
            j = j + 1;
        }
        assert_eq!(2, j, "We should only iterate the leftover elements");
    }
}

#[test]
fn test_empty() {
    let mut hs: WrappingHashSet<&str> = WrappingHashSet::new();
    {
        let mut hsiter = hs.iter();
        assert_eq!(None, hsiter.next());
    }
    hs.insert("one");
    hs.insert("two");
    let mut hsiter = hs.iter();
    assert_eq!(Some("one"), hsiter.next());
    assert_eq!(Some("two"), hsiter.next());
    assert_eq!(None, hsiter.next());
}

#[test]
fn test_one_item() {
    let mut hs: WrappingHashSet<&str> = WrappingHashSet::new();
    hs.insert("onething");
    {
        let mut hsiter = hs.iter();
        assert_eq!(Some("onething"), hsiter.next());
        assert_eq!(None, hsiter.next());
    }
    {
        let mut _hsunused = hs.iter();
        // We never call this so pos should stay where it was
    }
    {
        let mut hsiter = hs.iter();
        assert_eq!(Some("onething"), hsiter.next());
        assert_eq!(None, hsiter.next());
    }
}
