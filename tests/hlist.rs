use rcodec::hlist::{HCons, HList, HNil};

#[test]
fn head_should_work() {
    let hlist = HCons(1u8, HNil);
    assert_eq!(*hlist.head(), 1u8);
}

#[test]
fn tail_should_work() {
    let hlist = HCons(1u8, HNil);
    assert_eq!(*hlist.tail(), HNil);
}

#[test]
fn hlist_macros_should_work() {
    {
        let hlist1 = HNil;
        let hlist2 = HNil;
        assert_eq!(hlist1, hlist2);
    }

    {
        let hlist1 = HCons(1u8, HNil);
        let hlist2 = HNil.cons(1u8);
        assert_eq!(hlist1, hlist2);
    }

    {
        let hlist1 = HCons(1u8, HCons(2i32, HCons("three", HNil)));
        let hlist2 = HNil.cons("three").cons(2i32).cons(1u8);
        assert_eq!(hlist1, hlist2);
    }
}

#[test]
fn forcomp_macro_should_work() {
    let v1 = Some(1u8).map(|foo| foo);
    assert!(v1.is_some());

    let v2 = Some(1u8).and_then(|foo| None::<u8>.map(|bar| foo + bar));
    assert!(v2.is_none());

    let v3 = Some(1u8).and_then(|foo| Some(2u8).map(|bar| foo + bar));
    assert_eq!(v3.unwrap(), 3u8);
}
