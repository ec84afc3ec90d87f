use rcodec::byte_vector::{
    append, empty, fill, from_slice, from_slice_copy, from_vec, ByteVector,
    DIRECT_VALUE_SIZE_LIMIT,
};

fn bv(bytes: &[u8]) -> ByteVector {
    from_vec(bytes.to_vec())
}

#[test]
fn byte_vector_macro_should_work() {
    let bv1 = from_vec(vec![1, 2, 3, 4]);
    let bv2 = bv(&[1, 2, 3, 4]);
    assert_eq!(bv1, bv2);
}

#[test]
fn clone_should_work() {
    let bytes = vec![1, 2, 3, 4];
    let lhs = from_slice_copy(&bytes);
    let rhs = from_slice_copy(&bytes);
    let bv1 = append(&lhs, &rhs);
    let bv2 = bv1.clone();
    assert_eq!(bv1, bv2);
}

#[test]
fn debug_string_should_be_formatted_correctly() {
    assert_eq!("01020eff", bv(&[1, 2, 14, 255]).to_hex())
}

#[test]
fn length_of_empty_vector_should_be_zero() {
    assert_eq!(empty().length(), 0);
}

#[test]
fn length_of_heap_vector_should_be_correct() {
    assert_eq!(bv(&[1, 2, 3, 4]).length(), 4);
}

#[test]
fn append_should_work() {
    let bytes = vec![1, 2, 3, 4];
    let lhs = from_slice_copy(&bytes);
    let rhs = from_slice_copy(&bytes);

    let v = append(&lhs, &rhs);
    assert_eq!(v.length(), 8);

    let expected = bv(&[1, 2, 3, 4, 1, 2, 3, 4]);
    assert_eq!(v, expected);
}

#[test]
fn big_appends_should_work() {
    let small = from_vec(vec![1; DIRECT_VALUE_SIZE_LIMIT]);
    let big = from_vec(vec![2; DIRECT_VALUE_SIZE_LIMIT + 1]);

    let smallbig = append(&small, &big);
    let mut smallbig_expected = vec![1; DIRECT_VALUE_SIZE_LIMIT];
    smallbig_expected.extend(vec![2; DIRECT_VALUE_SIZE_LIMIT + 1]);
    assert_eq!(smallbig, from_vec(smallbig_expected));

    let bigsmall = append(&big, &small);
    let mut bigsmall_expected = vec![2; DIRECT_VALUE_SIZE_LIMIT + 1];
    bigsmall_expected.extend(vec![1; DIRECT_VALUE_SIZE_LIMIT]);
    assert_eq!(bigsmall, from_vec(bigsmall_expected));

    let bigbig = append(&big, &big);
    let bigbig_expected = vec![2; DIRECT_VALUE_SIZE_LIMIT * 2 + 2];
    assert_eq!(bigbig, from_vec(bigbig_expected));
}

#[test]
fn fill_should_work() {
    let v = fill(6u8, 4);
    let expected = bv(&[6, 6, 6, 6]);
    assert_eq!(v, expected);
}

#[test]
fn read_should_fail_if_offset_is_out_of_bounds() {
    let v = bv(&[1, 2, 3, 4]);

    let buf: &mut [u8] = &mut [0, 0];
    assert!(v.read(buf, 0, 2).is_ok());
    assert!(v.read(buf, 2, 2).is_ok());
    assert!(v.read(buf, 4, 1).is_err());
}

#[test]
fn a_failed_read_leaves_the_buffer_unchanged() {
    let v = bv(&[1, 2, 3, 4]);
    let buf: &mut [u8] = &mut [9; 2];
    assert_eq!(
        v.read(buf, 5, 1).unwrap_err().message(),
        "Requested read offset of 5 bytes exceeds vector length of 4"
    );
    assert_eq!(buf, [9, 9]);
    assert_eq!(
        v.read(buf, 3, 2).unwrap_err().message(),
        "Requested read offset of 3 and length 2 bytes exceeds vector length of 4"
    );
    assert_eq!(buf, [9, 9]);
}

#[test]
fn read_should_work_for_heap_vector() {
    let v = bv(&[1, 2, 3, 4]);

    let buf: &mut [u8] = &mut [0, 0];
    let result = v.read(buf, 1, 2);
    assert_eq!(result.unwrap(), 2);
    assert_eq!(buf, [2, 3]);
}

#[test]
fn read_should_work_for_append_vector() {
    let bytes = vec![1, 2, 3, 4];
    let lhs = from_slice_copy(&bytes);
    let rhs = from_slice_copy(&bytes);
    let v = append(&lhs, &rhs);

    let buf: &mut [u8] = &mut [0, 0];

    {
        let result = v.read(buf, 0, 2);
        assert_eq!(result.unwrap(), 2);
        assert_eq!(buf, [1, 2]);
    }

    {
        let result = v.read(buf, 5, 2);
        assert_eq!(result.unwrap(), 2);
        assert_eq!(buf, [2, 3]);
    }

    {
        let result = v.read(buf, 3, 2);
        assert_eq!(result.unwrap(), 2);
        assert_eq!(buf, [4, 1]);
    }
}

#[test]
fn read_should_work_for_nested_views() {
    let v = bv(&[1, 2, 3, 4]);
    let view0 = v.drop(1).unwrap();
    let view1 = view0.drop(1).unwrap();

    let buf: &mut [u8] = &mut [0, 0];
    assert_eq!(view1.read(buf, 0, 2).unwrap(), 2);
    assert_eq!(buf, [3, 4]);
}

#[test]
fn to_vec_should_work() {
    let input = vec![1, 2, 3, 4];
    let lhs = from_slice_copy(&input);
    let rhs = from_slice_copy(&input);
    let v = append(&lhs, &rhs);

    let result = v.to_vec();
    assert_eq!(result.unwrap(), vec!(1, 2, 3, 4, 1, 2, 3, 4));
}

#[test]
fn take_should_fail_if_length_is_invalid() {
    let v = bv(&[1, 2, 3, 4]);

    assert!(v.take(2).is_ok());
    assert!(v.take(4).is_ok());
    assert!(v.take(5).is_err());
}

#[test]
fn take_should_work_for_heap_vector() {
    let v = bv(&[1, 2, 3, 4]);

    let result = v.take(2);
    assert_eq!(result.unwrap(), bv(&[1, 2]));
}

#[test]
fn take_should_work_for_append_vector() {
    let bytes = vec![1, 2, 3, 4];
    let lhs = from_slice_copy(&bytes);
    let rhs = from_slice_copy(&bytes);
    let v = append(&lhs, &rhs);

    {
        let result = v.take(2);
        assert_eq!(result.unwrap(), bv(&[1, 2]));
    }

    {
        let result = v.take(6);
        assert_eq!(result.unwrap(), bv(&[1, 2, 3, 4, 1, 2]));
    }
}

#[test]
fn drop_should_fail_if_length_is_invalid() {
    let v = bv(&[1, 2, 3, 4]);

    assert!(v.drop(2).is_ok());
    assert!(v.drop(4).is_ok());
    assert!(v.drop(5).is_err());
}

#[test]
fn drop_should_work_for_heap_vector() {
    let v = bv(&[1, 2, 3, 4]);

    let result = v.drop(2);
    assert_eq!(result.unwrap(), bv(&[3, 4]));
}

#[test]
fn drop_should_work_for_append_vector() {
    let bytes = vec![1, 2, 3, 4];
    let lhs = from_slice_copy(&bytes);
    let rhs = from_slice_copy(&bytes);
    let v = append(&lhs, &rhs);

    {
        let result = v.drop(2);
        assert_eq!(result.unwrap(), bv(&[3, 4, 1, 2, 3, 4]));
    }

    {
        let result = v.drop(6);
        assert_eq!(result.unwrap(), bv(&[3, 4]));
    }
}

#[test]
fn pad_left_should_work() {
    let v = bv(&[1, 2, 3, 4]);
    assert_eq!(v.pad_left(4).unwrap(), bv(&[1, 2, 3, 4]));
    assert_eq!(v.pad_left(5).unwrap(), bv(&[0, 1, 2, 3, 4]));
    assert_eq!(v.pad_left(6).unwrap(), bv(&[0, 0, 1, 2, 3, 4]));
}

#[test]
fn pad_left_should_fail_if_length_is_invalid() {
    let v = bv(&[1, 2, 3, 4]);
    assert_eq!(
        v.pad_left(3).unwrap_err().message(),
        "Requested padded length of 3 bytes is smaller than vector length of 4"
    );
}

#[test]
fn pad_right_should_work() {
    let v = bv(&[1, 2, 3, 4]);
    assert_eq!(v.pad_right(4).unwrap(), bv(&[1, 2, 3, 4]));
    assert_eq!(v.pad_right(5).unwrap(), bv(&[1, 2, 3, 4, 0]));
    assert_eq!(v.pad_right(6).unwrap(), bv(&[1, 2, 3, 4, 0, 0]));
}

#[test]
fn pad_right_should_fail_if_length_is_invalid() {
    let v = bv(&[1, 2, 3, 4]);
    assert_eq!(
        v.pad_right(3).unwrap_err().message(),
        "Requested padded length of 3 bytes is smaller than vector length of 4"
    );
}

#[test]
fn from_slice_keeps_only_the_declared_length() {
    let v = from_slice([5, 6, 7, 0, 0, 0, 0, 0], 3);
    assert_eq!(v, bv(&[5, 6, 7]));
    assert_eq!(v.length(), 3);
}

#[test]
fn length_matches_an_exhaustive_read() {
    let v = append(&from_slice_copy(&[1, 2, 3]), &fill(9, 20)).drop(2).unwrap();
    let mut buf = vec![0u8; v.length()];
    assert_eq!(v.read(&mut buf, 0, v.length()).unwrap(), 21);
    assert_eq!(v.to_vec().unwrap(), buf);
}

#[test]
fn append_with_empty_is_identity() {
    let v = bv(&[1, 2, 3]);
    assert_eq!(append(&empty(), &v), v);
    assert_eq!(append(&v, &empty()), v);
    assert_eq!(append(&empty(), &empty()), empty());
}

#[test]
fn take_and_drop_rejoin_to_the_whole() {
    let v = append(&bv(&[1, 2, 3, 4, 5, 6, 7, 8, 9]), &bv(&[10, 11, 12]));
    for n in 0..=v.length() {
        let rejoined = append(&v.take(n).unwrap(), &v.drop(n).unwrap());
        assert_eq!(rejoined, v);
    }
}

#[test]
fn reads_across_an_append_see_the_concatenation() {
    let a = bv(&[1, 2, 3]);
    let b = bv(&[4, 5, 6, 7]);
    let v = append(&a, &b);
    let whole = [1u8, 2, 3, 4, 5, 6, 7];
    for o in 0..=7usize {
        for k in 0..=(7 - o) {
            let mut buf = vec![0u8; k];
            assert_eq!(v.read(&mut buf, o, k).unwrap(), k);
            assert_eq!(&buf[..], &whole[o..o + k]);
        }
    }
}

#[test]
fn padding_keeps_the_bytes_and_adds_zeros() {
    let v = bv(&[7, 8, 9]);
    let right = v.pad_right(6).unwrap();
    assert_eq!(right.take(3).unwrap(), v);
    assert_eq!(right.drop(3).unwrap(), fill(0, 3));
    let left = v.pad_left(6).unwrap();
    assert_eq!(left.drop(3).unwrap(), v);
    assert_eq!(left.take(3).unwrap(), fill(0, 3));
}

#[test]
fn out_of_range_take_and_drop_report_errors() {
    let v = bv(&[1]);
    assert_eq!(
        v.take(3).unwrap_err().message(),
        "Requested view offset of 0 and length 3 bytes exceeds vector length of 1"
    );
    assert_eq!(
        v.drop(3).unwrap_err().message(),
        "Requested length of 3 bytes exceeds vector length of 1"
    );
}
