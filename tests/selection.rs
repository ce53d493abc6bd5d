use anndata::array::NdArray;
use anndata::config::WriteConfig;
use anndata::container::DataContainer;
use anndata::datatype::{DataType, ScalarType};
use anndata::dynamic::{DynArray, DynScalar, F32Bits};
use anndata::error::Error;
use anndata::selection::{boolean_mask_to_indices, SelectInfo, SelectInfoElem};
use anndata::dynamic::F64Bits;
use anndata::sparse::CsrMatrix;

fn grid() -> NdArray<i32> {
    NdArray::from_shape_vec(vec![3, 4], (0..12).collect()).unwrap()
}

#[test]
fn full_selection_reads_everything() {
    let a = grid();
    let r = a.select(&SelectInfo::full_slice(2)).unwrap();
    assert_eq!(r, a);
}

#[test]
fn unit_ranges_read_everything() {
    let a = grid();
    let info = SelectInfo::new(vec![
        SelectInfoElem::Range { start: 0, end: 3, step: 1 },
        SelectInfoElem::Range { start: 0, end: 4, step: 1 },
    ]);
    assert_eq!(a.select(&info).unwrap(), a);
}

#[test]
fn all_indices_read_everything() {
    let a = grid();
    let info = SelectInfo::new(vec![SelectInfoElem::Index(vec![0, 1, 2]), SelectInfoElem::Index(vec![0, 1, 2, 3])]);
    assert_eq!(a.select(&info).unwrap(), a);
}

#[test]
fn stepped_and_scalar_selection() {
    let a = grid();
    let info = SelectInfo::new(vec![SelectInfoElem::Scalar(1), SelectInfoElem::Range { start: 0, end: 4, step: -2 }]);
    let r = a.select(&info).unwrap();
    assert_eq!(r.shape, vec![2]);
    assert_eq!(r.data, vec![7, 5]);
    let info = SelectInfo::new(vec![SelectInfoElem::Range { start: 0, end: 3, step: 2 }, SelectInfoElem::Index(vec![3, 3, 0])]);
    let r = a.select(&info).unwrap();
    assert_eq!(r.shape, vec![2, 3]);
    assert_eq!(r.data, vec![3, 3, 0, 11, 11, 8]);
}

#[test]
fn selection_errors() {
    let a = grid();
    assert_eq!(a.select(&SelectInfo::full_slice(1)), Err(Error::ShapeMismatch));
    let info = SelectInfo::new(vec![SelectInfoElem::Index(vec![3]), SelectInfoElem::Full]);
    assert_eq!(a.select(&info), Err(Error::Bounds));
}

#[test]
fn write_then_read_slice() {
    let mut a = grid();
    let info = SelectInfo::new(vec![SelectInfoElem::Index(vec![2, 0]), SelectInfoElem::Range { start: 1, end: 3, step: 1 }]);
    let view = NdArray::from_shape_vec(vec![2, 2], vec![-1, -2, -3, -4]).unwrap();
    a.write_slice(&view, &info).unwrap();
    assert_eq!(a.select(&info).unwrap(), view);
    assert_eq!(a.data, vec![0, -3, -4, 3, 4, 5, 6, 7, 8, -1, -2, 11]);
    let bad = NdArray::from_shape_vec(vec![1, 2], vec![9, 9]).unwrap();
    assert_eq!(a.write_slice(&bad, &info), Err(Error::ShapeMismatch));
}

#[test]
fn get_and_vstack() {
    let a = grid();
    assert_eq!(a.get(&vec![2, 1]), Some(9));
    assert_eq!(a.get(&vec![3, 0]), None);
    let b = NdArray::from_shape_vec(vec![1, 4], vec![20, 21, 22, 23]).unwrap();
    let s = NdArray::vstack(&vec![a.clone(), b]).unwrap();
    assert_eq!(s.shape, vec![4, 4]);
    assert_eq!(s.data[12..].to_vec(), vec![20, 21, 22, 23]);
    let c = NdArray::from_shape_vec(vec![1, 3], vec![0, 0, 0]).unwrap();
    assert_eq!(NdArray::vstack(&vec![a, c]), Err(Error::ShapeMismatch));
}

#[test]
fn dyn_vstack_and_cast() {
    let a = DynArray::I8(NdArray::from_shape_vec(vec![2], vec![1, -1]).unwrap());
    let b = DynArray::U8(NdArray::from_shape_vec(vec![1], vec![1]).unwrap());
    assert!(matches!(DynArray::vstack(vec![a.clone(), b]), Err(Error::DTypeMismatch)));
    assert!(matches!(a.cast_usize(), Err(Error::Cast)));
    let u = DynArray::U16(NdArray::from_shape_vec(vec![2], vec![3, 9]).unwrap());
    assert_eq!(u.cast_usize().unwrap().data, vec![3usize, 9]);
    let f = DynArray::F32(NdArray::from_shape_vec(vec![1], vec![F32Bits(1.5f32.to_bits())]).unwrap());
    assert!(matches!(f.cast_usize(), Err(Error::Cast)));
}

#[test]
fn boolean_masks() {
    assert_eq!(boolean_mask_to_indices(&vec![true, false, true, true]), vec![0, 2, 3]);
    assert_eq!(SelectInfoElem::from_mask(&vec![false, true], 2), Ok(SelectInfoElem::Index(vec![1])));
    assert_eq!(SelectInfoElem::from_mask(&vec![true], 3), Err(Error::ShapeMismatch));
}

#[test]
fn scalar_round_trip() {
    for s in [DynScalar::I16(-4), DynScalar::String("hi".to_string()), DynScalar::F64(F64Bits(2.5f64.to_bits()))] {
        let c = s.write();
        assert_eq!(DynScalar::read(&c).unwrap(), s);
        assert_eq!(c.encoding_type().unwrap(), DataType::Scalar(s.dtype()));
    }
    let c = DynScalar::String("x".to_string()).write();
    assert_eq!(c.encoding_tag(), "string");
}

#[test]
fn array_round_trip_and_tags() {
    let a = DynArray::U32(NdArray::from_shape_vec(vec![2, 2], vec![1, 2, 3, 4]).unwrap());
    let c = a.write(&WriteConfig::default());
    assert_eq!(DynArray::read(&c).unwrap(), a);
    assert_eq!(c.encoding_type().unwrap(), DataType::Array(ScalarType::U32));
    assert_eq!(c.encoding_tag(), "array");
    let s = DynArray::String(NdArray::from_shape_vec(vec![1], vec!["q".to_string()]).unwrap());
    let c = s.write(&WriteConfig::default());
    assert_eq!(c.encoding_tag(), "string-array");
    assert_eq!(c.encoding_type().unwrap(), DataType::Array(ScalarType::String));
}

#[test]
fn compression_follows_length() {
    let big = DynArray::F32(NdArray::from_shape_vec(vec![101], vec![F32Bits(0); 101]).unwrap());
    match big.write(&WriteConfig::default()) {
        DataContainer::Dataset(d) => {
            assert_eq!(d.config.compression, Some(1));
            assert_eq!(d.config.block_size, Some(vec![101]));
        }
        DataContainer::Group(_) => panic!("expected a dataset"),
    }
    let small = DynArray::F32(NdArray::from_shape_vec(vec![50], vec![F32Bits(0); 50]).unwrap());
    match small.write(&WriteConfig::default()) {
        DataContainer::Dataset(d) => assert_eq!(d.config.compression, None),
        DataContainer::Group(_) => panic!("expected a dataset"),
    }
}

#[test]
fn missing_attribute_is_not_found() {
    let c = DynScalar::U8(1).write();
    match c {
        DataContainer::Dataset(d) => {
            assert!(matches!(d.get_array_attr("nope"), Err(Error::NotFound)));
            assert!(d.get_array_attr("encoding-type").is_ok());
        }
        DataContainer::Group(_) => panic!("expected a dataset"),
    }
}

#[test]
fn unknown_tag_is_unsupported() {
    let mut g = anndata::container::Group::new();
    assert_eq!(DataContainer::Group(anndata::container::Group::new()).encoding_type(), Ok(DataType::Mapping));
    g.new_str_attr("encoding-type", "weird");
    assert_eq!(DataContainer::Group(g).encoding_type(), Err(Error::EncodingUnsupported));
}

#[test]
fn csr_to_dense() {
    let f = |v: f64| F64Bits(v.to_bits());
    let m = CsrMatrix {
        nrows: 2,
        ncols: 3,
        indptr: vec![0, 2, 3],
        indices: vec![0, 2, 1],
        data: vec![f(1.0), f(2.0), f(3.0)],
    };
    assert!(m.is_wf());
    let d = m.to_dense(&f(0.0)).unwrap();
    assert_eq!(d.shape, vec![2, 3]);
    assert_eq!(d.data, vec![f(1.0), f(0.0), f(2.0), f(0.0), f(3.0), f(0.0)]);
    let bad = CsrMatrix { nrows: 1, ncols: 1, indptr: vec![0, 1], indices: vec![1], data: vec![f(1.0)] };
    assert!(!bad.is_wf());
}

#[test]
fn csr_round_trip() {
    let f = |v: f64| F64Bits(v.to_bits());
    let m = CsrMatrix {
        nrows: 2,
        ncols: 3,
        indptr: vec![0, 2, 3],
        indices: vec![0, 2, 1],
        data: vec![f(1.0), f(2.0), f(3.0)],
    };
    let c = m.write();
    assert_eq!(c.encoding_type(), Ok(DataType::CsrMatrix(ScalarType::F64)));
    let back: CsrMatrix<F64Bits> = CsrMatrix::read(&c).unwrap();
    assert_eq!(back.indptr, m.indptr);
    assert_eq!(back.indices, m.indices);
    assert_eq!(back.to_dense(&f(0.0)).unwrap().data, vec![f(1.0), f(0.0), f(2.0), f(0.0), f(3.0), f(0.0)]);
    assert!(matches!(CsrMatrix::<i32>::read(&c), Err(Error::DTypeMismatch)));
}

#[test]
fn frame_round_trip() {
    use_frame();
}

fn use_frame() {
    let cols = vec![
        anndata::frame::Column {
            name: "_index".to_string(),
            values: DynArray::String(NdArray::from_shape_vec(vec![2], vec!["a".to_string(), "b".to_string()]).unwrap()),
        },
        anndata::frame::Column {
            name: "n".to_string(),
            values: DynArray::I8(NdArray::from_shape_vec(vec![2], vec![4, 5]).unwrap()),
        },
    ];
    let df = anndata::frame::DataFrame::new("_index".to_string(), cols).unwrap();
    let c = df.write();
    assert_eq!(c.encoding_type(), Ok(DataType::DataFrame));
    let back = anndata::frame::DataFrame::read(&c).unwrap();
    assert_eq!(back.index_name, "_index");
    assert_eq!(back.column_names(), vec!["_index".to_string(), "n".to_string()]);
    assert_eq!(back.columns[1].values, df.columns[1].values);
}

#[test]
fn csr_element_reads_back() {
    let f = |v: f64| F64Bits(v.to_bits());
    let m = CsrMatrix {
        nrows: 2,
        ncols: 3,
        indptr: vec![0, 2, 3],
        indices: vec![0, 2, 1],
        data: vec![f(1.0), f(2.0), f(3.0)],
    };
    let e = anndata::sparse::CsrElem::from_matrix(&m);
    let back = e.read_elem().unwrap();
    assert_eq!(back.to_dense(&f(0.0)).unwrap().data, vec![f(1.0), f(0.0), f(2.0), f(0.0), f(3.0), f(0.0)]);
    let scalar = DynScalar::U8(3).write();
    assert!(matches!(CsrMatrix::<F64Bits>::read(&scalar), Err(Error::DTypeMismatch)));
    let empty = DataContainer::Group(anndata::container::Group::new());
    assert!(matches!(CsrMatrix::<F64Bits>::read(&empty), Err(Error::NotFound)));
}
