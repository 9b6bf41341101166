use shadey::wgsl::Aligned;
use shadey::wgsl::PType;
use shadey::wgsl::Sized;
use shadey::wgsl::TType;

#[test]
fn correctly_sized_ptype() {
    let ptype_and_size = vec![
        (PType::Bool, 1),
        (PType::I32, 4),
        (PType::I64, 8),
        (PType::U32, 4),
        (PType::U64, 8),
        (PType::F16, 2),
        (PType::F32, 4),
        (PType::F64, 8),
    ];

    for (ptype, size) in ptype_and_size {
        assert!(ptype.size() == size);
    }
}

#[test]
fn align_with_valid_ptype() {
    let ptype_and_align = vec![(PType::F16, 2), (PType::I32, 4), (PType::U32, 4), (PType::F32, 4)];

    for (ptype, align) in ptype_and_align {
        assert!(ptype.align() == align);
    }
}

#[test]
fn align_with_valid_scalar_ttype() {
    let ptype_and_align = vec![(PType::F16, 2), (PType::I32, 4), (PType::U32, 4), (PType::F32, 4)];

    for (ptype, align) in ptype_and_align {
        assert!(TType::Scalar(ptype).align() == align);
    }
}

#[test]
fn align_with_valid_vector_f16_ttype() {
    let vec_size_and_align = vec![(2, 4), (3, 8), (4, 8)];

    for (vec_size, align) in vec_size_and_align {
        assert!(TType::Vector(vec_size, PType::F16).align() == align);
    }
}

#[test]
fn align_with_valid_vector_4bytes_ttype() {
    let vec_size_and_align = vec![(2, 8), (3, 16), (4, 16)];

    for (vec_size, align) in vec_size_and_align.iter() {
        assert!(TType::Vector(*vec_size, PType::F32).align() == *align);
    }

    for (vec_size, align) in vec_size_and_align.iter() {
        assert!(TType::Vector(*vec_size, PType::I32).align() == *align);
    }

    for (vec_size, align) in vec_size_and_align.iter() {
        assert!(TType::Vector(*vec_size, PType::U32).align() == *align);
    }
}

#[test]
fn align_with_valid_matrix_f16_ttype() {
    let matrix_size_and_align = vec![(2, 4), (3, 8), (4, 8)];

    for (matrix_size, align) in matrix_size_and_align {
        for m in [2, 3, 4] {
            assert!(
                TType::Matrix {
                    m,
                    n: matrix_size,
                    typed: PType::F16
                }
                .align()
                    == align
            );
        }
    }
}

#[test]
fn align_with_valid_matrix_4bytes_ttype() {
    let matrix_size_and_align = vec![(2, 8), (3, 16), (4, 16)];

    for (matrix_size, align) in matrix_size_and_align.iter() {
        for m in [2, 3, 4] {
            assert!(
                TType::Matrix {
                    m,
                    n: *matrix_size,
                    typed: PType::F32
                }
                .align()
                    == *align
            );
        }
    }

    for (matrix_size, align) in matrix_size_and_align.iter() {
        for m in [2, 3, 4] {
            assert!(
                TType::Matrix {
                    m,
                    n: *matrix_size,
                    typed: PType::I32
                }
                .align()
                    == *align
            );
        }
    }

    for (matrix_size, align) in matrix_size_and_align.iter() {
        for m in [2, 3, 4] {
            assert!(
                TType::Matrix {
                    m,
                    n: *matrix_size,
                    typed: PType::U32
                }
                .align()
                    == *align
            );
        }
    }
}

#[test]
fn size_of_composite_types() {
    assert_eq!(TType::Vector(3, PType::F32).size(), 12);
    assert_eq!(TType::Vector(2, PType::U32).size(), 8);
    assert_eq!(
        TType::Matrix {
            m: 4,
            n: 4,
            typed: PType::F32
        }
        .size(),
        64
    );
    assert_eq!(TType::Array(5, Box::new(TType::Vector(4, PType::F32))).size(), 80);
    assert_eq!(TType::Array(0, Box::new(TType::Scalar(PType::F16))).size(), 0);
}

#[test]
fn align_of_array_follows_element() {
    assert_eq!(TType::Array(7, Box::new(TType::Vector(3, PType::F32))).align(), 16);
    assert_eq!(TType::Array(2, Box::new(TType::Scalar(PType::F16))).align(), 2);
}
