use tisuos::sync::content::{Content, ContentMutex};

#[test]
fn lock_gives_the_value_until_unlocked() {
    let mut m = ContentMutex::new(5u32);
    assert!(!m.locked);
    {
        let v = m.lock();
        *v += 1;
    }
    assert!(m.locked);
    m.unlock();
    assert!(!m.locked);
    assert_eq!(m.value, 6);
}

#[test]
fn content_reads_and_writes_through_the_lock() {
    let mut m = ContentMutex::new(vec![1u8, 2]);
    {
        let mut c = Content::new(&mut m);
        c.get_mut().push(3);
        assert_eq!(c.get().len(), 3);
    }
    assert_eq!(m.value, vec![1, 2, 3]);
}
