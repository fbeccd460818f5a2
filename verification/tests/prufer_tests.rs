use tree_printer::prufer::{InvalidPruferCode, PruferCode};
use tree_printer::tree_edges;

#[test]
fn test_prufer_4() {
    const PRUFER_CODE: [u64; 4] = [4, 1, 3, 4];
    let res = PruferCode::try_from(PRUFER_CODE.as_slice());

    match res {
        Ok(code) => assert_eq!(
            [(2, 4), (5, 1), (1, 3), (3, 4), (4, 6)],
            tree_edges(&code).as_slice()
        ),
        Err(e) => assert!(false, "{}", e.to_string()),
    }
}

#[test]
fn test_prufer_5() {
    const PRUFER_CODE: [u64; 5] = [5, 1, 2, 4, 3];
    let res = PruferCode::try_from(PRUFER_CODE.as_slice());

    match res {
        Ok(code) => assert_eq!(
            [(6, 5), (5, 1), (1, 2), (2, 4), (4, 3), (3, 7)],
            tree_edges(&code).as_slice()
        ),
        Err(e) => assert!(false, "{}", e.to_string()),
    }
}

#[test]
fn test_prufer_6() {
    const PRUFER_CODE: [u64; 6] = [1, 1, 1, 1, 6, 5];
    let res = PruferCode::try_from(PRUFER_CODE.as_slice());

    match res {
        Ok(code) => assert_eq!(
            [(2, 1), (3, 1), (4, 1), (7, 1), (1, 6), (6, 5), (5, 8)],
            tree_edges(&code).as_slice()
        ),
        Err(e) => assert!(false, "{}", e.to_string()),
    }
}

#[test]
fn test_invalid_code_large() {
    const WRONG_CODE: u64 = 7;
    const PRUFER_CODE: [u64; 4] = [4, WRONG_CODE, 3, 4];
    let res = PruferCode::try_from(PRUFER_CODE.as_slice());

    assert_eq!(
        res,
        Err(InvalidPruferCode::ValueTooLarge {
            invalid_value: WRONG_CODE,
            code: PRUFER_CODE.to_vec()
        })
    );
}

#[test]
fn test_invalid_code_zero() {
    const PRUFER_CODE: [u64; 4] = [4, 0, 3, 4];
    let res = PruferCode::try_from(PRUFER_CODE.as_slice());

    assert_eq!(
        res,
        Err(InvalidPruferCode::ValueIsZero {
            code: PRUFER_CODE.to_vec()
        })
    )
}

#[test]
fn test_too_large_message() {
    let res = PruferCode::try_from([4, 7, 3, 4].as_slice());
    let e = match res {
        Ok(_) => panic!(),
        Err(e) => e,
    };
    assert_eq!(
        e.to_string(),
        "Invalid value in code: 7\n    SEQ = [4, 7, 3, 4]\n    N := |SEQ| + 2 = 6\n    max(SEQ) = 7\n    max(SEQ) > N => Invalid pr\u{fc}fer code"
    );
}

#[test]
fn test_zero_message() {
    let res = PruferCode::try_from([4, 0, 3, 4].as_slice());
    let e = match res {
        Ok(_) => panic!(),
        Err(e) => e,
    };
    assert_eq!(
        e.to_string(),
        "Invalid value in code: 0\n    SEQ = [4, 0, 3, 4]\n    0 \u{2208} SEQ => Invalid pr\u{fc}fer code"
    );
}

#[test]
fn test_prufer_code_display_string() {
    let code = PruferCode::try_from([4, 1, 3, 4].as_slice()).unwrap();
    assert_eq!(code.to_string(), "{4, 1, 3, 4}");
}

#[test]
fn test_first_invalid_value_wins() {
    // the zero at scan position 1 is reported, not the oversized 9 after it
    let res = PruferCode::try_from([4, 0, 9, 4].as_slice());
    assert_eq!(
        res,
        Err(InvalidPruferCode::ValueIsZero {
            code: vec![4, 0, 9, 4]
        })
    );
}

#[test]
fn test_empty_code() {
    // an empty sequence encodes the unique tree on two vertices
    let code = PruferCode::try_from([].as_slice()).unwrap();
    assert_eq!(tree_edges(&code), vec![(1, 2)]);
}
