use anndata::anndata::{AnnData, AnnDataSet, NamedAnnData};
use anndata::array::NdArray;
use anndata::dynamic::{DynArray, F32Bits, F64Bits};
use anndata::error::Error;
use anndata::frame::{Column, DataFrame};

fn i32_matrix(rows: usize, cols: usize, fill: i32) -> DynArray {
    DynArray::I32(NdArray::from_shape_vec(vec![rows, cols], vec![fill; rows * cols]).unwrap())
}

fn strings(v: &[&str]) -> DynArray {
    let data: Vec<String> = v.iter().map(|s| s.to_string()).collect();
    DynArray::String(NdArray::from_shape_vec(vec![data.len()], data).unwrap())
}

fn i64_column(v: &[i64]) -> DynArray {
    DynArray::I64(NdArray::from_shape_vec(vec![v.len()], v.to_vec()).unwrap())
}

#[test]
fn test_speacial_cases_h5() {
    let mut adata = AnnData::new("f.h5", 0, 0);
    let arr = i32_matrix(0, 0, 0);
    let arr2 = i32_matrix(10, 20, 0);
    adata.set_x(&arr).unwrap();
    assert!(adata.add_obsm("test", &arr2).is_err());
}

fn random_array(seed: u64, case: u64) -> DynArray {
    let rows = (seed >> 33) as usize % 6;
    let cols = (seed >> 40) as usize % 6;
    let n = rows * cols;
    let shape = vec![rows, cols];
    let v = |i: usize| (i as u64).wrapping_mul(seed >> 7).wrapping_add(case);
    match case % 12 {
        0 => DynArray::I8(NdArray::from_shape_vec(shape, (0..n).map(|i| v(i) as i8).collect()).unwrap()),
        1 => DynArray::I16(NdArray::from_shape_vec(shape, (0..n).map(|i| v(i) as i16).collect()).unwrap()),
        2 => DynArray::I32(NdArray::from_shape_vec(shape, (0..n).map(|i| v(i) as i32).collect()).unwrap()),
        3 => DynArray::I64(NdArray::from_shape_vec(shape, (0..n).map(|i| v(i) as i64).collect()).unwrap()),
        4 => DynArray::U8(NdArray::from_shape_vec(shape, (0..n).map(|i| v(i) as u8).collect()).unwrap()),
        5 => DynArray::U16(NdArray::from_shape_vec(shape, (0..n).map(|i| v(i) as u16).collect()).unwrap()),
        6 => DynArray::U32(NdArray::from_shape_vec(shape, (0..n).map(|i| v(i) as u32).collect()).unwrap()),
        7 => DynArray::U64(NdArray::from_shape_vec(shape, (0..n).map(v).collect()).unwrap()),
        8 => DynArray::F32(NdArray::from_shape_vec(shape, (0..n).map(|i| F32Bits((v(i) as f32 * 0.5).to_bits())).collect()).unwrap()),
        9 => DynArray::F64(NdArray::from_shape_vec(shape, (0..n).map(|i| F64Bits((v(i) as f64 / 3.0).to_bits())).collect()).unwrap()),
        10 => DynArray::Bool(NdArray::from_shape_vec(shape, (0..n).map(|i| v(i) % 2 == 0).collect()).unwrap()),
        _ => DynArray::String(NdArray::from_shape_vec(shape, (0..n).map(|i| format!("s{}", v(i) % 97)).collect()).unwrap()),
    }
}

#[test]
fn test_io_h5() {
    let mut seed: u64 = 7;
    for case in 0..999u64 {
        let mut adata = AnnData::new("f.h5", 0, 0);
        seed = seed.wrapping_mul(6364136223846793005).wrapping_add(1442695040888963407);
        let x = random_array(seed, case);
        adata.set_x(&x).unwrap();
        assert_eq!(adata.read_x().unwrap(), x);
        adata.del_x();
        assert!(adata.x.is_none());
    }
}

#[test]
fn empty_frame_needs_zero_observations() {
    let mut adata = AnnData::new("f.h5", 3, 0);
    let empty = DataFrame::new("_index".to_string(), vec![]).unwrap();
    assert_eq!(adata.set_obs(empty), Err(Error::ShapeMismatch));
    assert_eq!(adata.n_obs(), 3);
    let mut zero = AnnData::new("f.h5", 0, 0);
    let empty = DataFrame::new("_index".to_string(), vec![]).unwrap();
    assert_eq!(zero.set_obs(empty), Ok(()));
    assert_eq!(zero.n_obs(), 0);
    assert_eq!(zero.add_obsm("m", &i32_matrix(5, 1, 0)), Err(Error::AxisMismatch));
}

#[test]
fn subset_both_axes() {
    let mut adata = AnnData::new("f.h5", 0, 0);
    let x = DynArray::I32(NdArray::from_shape_vec(vec![3, 2], vec![1, 2, 3, 4, 5, 6]).unwrap());
    adata.set_x(&x).unwrap();
    adata.add_varm("v", &i32_matrix(2, 1, 9)).unwrap();
    adata.subset(&vec![2, 1], &vec![1]).unwrap();
    assert_eq!((adata.n_obs(), adata.n_vars()), (2, 1));
    let y = DynArray::I32(NdArray::from_shape_vec(vec![2, 1], vec![6, 4]).unwrap());
    assert_eq!(adata.read_x().unwrap(), y);
    assert_eq!(adata.subset(&vec![0], &vec![3]), Err(Error::Bounds));
}

#[test]
fn set_x_fixes_axes_and_rejects_bad_obsm() {
    let mut adata = AnnData::new("f.h5", 0, 0);
    adata.set_x(&i32_matrix(10, 20, 0)).unwrap();
    assert_eq!(adata.n_obs(), 10);
    assert_eq!(adata.n_vars(), 20);
    assert_eq!(adata.add_obsm("bad", &i32_matrix(9, 5, 0)), Err(Error::AxisMismatch));
    assert_eq!(adata.add_obsm("good", &i32_matrix(10, 5, 0)), Ok(()));
    assert_eq!(adata.add_obsp("pairs", &i32_matrix(10, 9, 0)), Err(Error::AxisMismatch));
    assert_eq!(adata.add_obsp("pairs", &i32_matrix(10, 10, 0)), Ok(()));
}

#[test]
fn empty_x_leaves_axes_zero() {
    let mut adata = AnnData::new("f.h5", 0, 0);
    assert_eq!(adata.set_x(&i32_matrix(0, 0, 0)), Ok(()));
    assert_eq!(adata.n_obs(), 0);
    assert_eq!(adata.n_vars(), 0);
}

#[test]
fn set_x_twice_is_set_x_once() {
    let mut a = AnnData::new("f.h5", 0, 0);
    let x = i32_matrix(3, 2, 4);
    a.set_x(&x).unwrap();
    let first = a.read_x().unwrap();
    a.set_x(&x).unwrap();
    assert_eq!(a.read_x().unwrap(), first);
    assert_eq!((a.n_obs(), a.n_vars()), (3, 2));
}

#[test]
fn subset_obs_reorders_frame() {
    let mut adata = AnnData::new("f.h5", 0, 0);
    let frame = DataFrame::new(
        "_index".to_string(),
        vec![
            Column { name: "_index".to_string(), values: strings(&["a", "b", "c"]) },
            Column { name: "x".to_string(), values: i64_column(&[1, 2, 3]) },
        ],
    )
    .unwrap();
    adata.set_obs(frame).unwrap();
    assert_eq!(adata.n_obs(), 3);
    adata.subset_obs(&vec![2, 0]).unwrap();
    let obs = adata.obs.as_ref().unwrap();
    assert_eq!(obs.columns[0].values, strings(&["c", "a"]));
    assert_eq!(obs.columns[1].values, i64_column(&[3, 1]));
    assert_eq!(adata.n_obs(), 2);
    assert_eq!(adata.subset_obs(&vec![5]), Err(Error::Bounds));
}

#[test]
fn subset_obs_all_rows_keeps_x() {
    let mut adata = AnnData::new("f.h5", 0, 0);
    let x = DynArray::I32(NdArray::from_shape_vec(vec![3, 2], vec![1, 2, 3, 4, 5, 6]).unwrap());
    adata.set_x(&x).unwrap();
    adata.subset_obs(&vec![0, 1, 2]).unwrap();
    assert_eq!(adata.read_x().unwrap(), x);
    adata.subset_obs(&vec![2, 0]).unwrap();
    let y = DynArray::I32(NdArray::from_shape_vec(vec![2, 2], vec![5, 6, 1, 2]).unwrap());
    assert_eq!(adata.read_x().unwrap(), y);
}

fn member(name: &str, n_obs: usize) -> NamedAnnData {
    let mut a = AnnData::new(name, 0, 0);
    a.set_x(&i32_matrix(n_obs, 4, 1)).unwrap();
    let var = DataFrame::new(
        "_index".to_string(),
        vec![Column { name: "_index".to_string(), values: strings(&["g1", "g2", "g3", "g4"]) }],
    )
    .unwrap();
    a.set_var(var).unwrap();
    NamedAnnData { name: name.to_string(), data: a }
}

#[test]
fn dataset_stacks_observations() {
    let set = AnnDataSet::new(vec![member("A", 5), member("B", 7)]).unwrap();
    assert_eq!(set.n_obs(), 12);
    assert_eq!(set.n_vars(), 4);
    assert_eq!(set.chunked_x(10), vec![(0, 0, 5), (1, 0, 7)]);
    assert_eq!(set.chunked_x(3), vec![(0, 0, 3), (0, 3, 5), (1, 0, 3), (1, 3, 6), (1, 6, 7)]);
}

#[test]
fn dataset_rejects_different_vars() {
    let mut b = member("B", 7);
    let var = DataFrame::new(
        "_index".to_string(),
        vec![Column { name: "_index".to_string(), values: strings(&["g1", "g2", "g3", "g5"]) }],
    )
    .unwrap();
    b.data.var = Some(var);
    assert!(matches!(AnnDataSet::new(vec![member("A", 5), b]), Err(Error::AxisMismatch)));
}

#[test]
fn intersections_keep_common_names() {
    let r = anndata::anndata::intersections(vec![
        vec!["a".to_string(), "b".to_string(), "c".to_string()],
        vec!["c".to_string(), "a".to_string()],
        vec!["a".to_string(), "c".to_string(), "d".to_string()],
    ]);
    assert_eq!(r, vec!["a".to_string(), "c".to_string()]);
}

#[test]
fn set_obsm_replaces_collection() {
    let mut adata = AnnData::new("f.h5", 0, 0);
    adata.set_x(&i32_matrix(4, 2, 0)).unwrap();
    adata.add_obsm("old", &i32_matrix(4, 1, 0)).unwrap();
    let items = vec![("a".to_string(), i32_matrix(4, 3, 1)), ("b".to_string(), i32_matrix(4, 5, 2))];
    assert_eq!(adata.set_obsm(&items), Ok(()));
    let mut keys = adata.obsm.keys();
    keys.sort();
    assert_eq!(keys, vec!["a".to_string(), "b".to_string()]);
    let bad = vec![("c".to_string(), i32_matrix(3, 3, 1))];
    assert_eq!(adata.set_obsm(&bad), Err(Error::AxisMismatch));
    assert_eq!(adata.obsm.len(), 2);
    let pairs = vec![("p".to_string(), i32_matrix(4, 4, 0))];
    assert_eq!(adata.set_obsp(&pairs), Ok(()));
    let not_square = vec![("q".to_string(), i32_matrix(4, 3, 0))];
    assert_eq!(adata.set_obsp(&not_square), Err(Error::ShapeMismatch));
}

#[test]
fn set_uns_replaces_collection() {
    let mut adata = AnnData::new("f.h5", 0, 0);
    adata.add_uns("gone", anndata::dynamic::DynScalar::U8(1).write());
    adata.set_uns(vec![("k".to_string(), anndata::dynamic::DynScalar::I8(-1).write())]);
    assert!(adata.uns.get("gone").is_none());
    assert!(adata.uns.get("k").is_some());
}
