use tensorcore::{ArrayError, Backend, BackendData, CpuArray, DType, Dense, Element};

type Array = CpuArray<f32, f64>;

fn filled(shape: Vec<usize>, v: f32) -> Array {
    CpuArray::F32Array(Dense::full(shape, v))
}

fn from_values(shape: Vec<usize>, values: Vec<f32>) -> Array {
    CpuArray::F32Array(Dense::from_vec(shape, values).unwrap())
}

fn single(e: Option<Element<f32, f64>>) -> Option<f32> {
    match e {
        Some(Element::F32(v)) => Some(v),
        _ => None,
    }
}

fn add32(x: f32, y: f32) -> f32 {
    x + y
}

fn add64(x: f64, y: f64) -> f64 {
    x + y
}

fn mul32(x: f32, y: f32) -> f32 {
    x * y
}

fn mul64(x: f64, y: f64) -> f64 {
    x * y
}

fn mac32(acc: f32, x: f32, y: f32) -> f32 {
    acc + x * y
}

fn mac64(acc: f64, x: f64, y: f64) -> f64 {
    acc + x * y
}

fn relu32(x: f32) -> f32 {
    x.max(0.0)
}

fn relu64(x: f64) -> f64 {
    x.max(0.0)
}

fn exp32(x: f32) -> f32 {
    x.exp()
}

fn exp64(x: f64) -> f64 {
    x.exp()
}

fn sum_of(a: &Array, dims: Vec<usize>) -> Result<Array, ArrayError> {
    a.sum(&dims, 0.0f32, &add32, 0.0f64, &add64)
}

fn matmul_of(a: &Array, b: &Array) -> Result<Array, ArrayError> {
    a.matmul(b, 0.0f32, &mac32, 0.0f64, &mac64)
}

#[test]
fn test_matmul_1x1() {
    let cpua1 = filled(vec![1], 5.0f32);
    let cpua2 = filled(vec![1], 3.0f32);
    let cpu_prod = matmul_of(&cpua1, &cpua2);
    assert_eq!(single(cpu_prod.unwrap().get(&vec![0])), Some(15f32))
}

#[test]
fn test_matmul_2x2() {
    let arr1 = filled(vec![2, 3], 5.0f32);
    let arr2 = filled(vec![3, 5], 3.0f32);
    let cpu_prod = matmul_of(&arr1, &arr2).unwrap();
    assert_eq!(single(cpu_prod.get(&vec![1, 1])), Some(45f32));
    assert_eq!(cpu_prod.shape(), vec![2, 5]);
}

#[test]
fn test_relu() {
    let arr_neg = filled(vec![2, 3], -1.0f32);
    let arr_zero = filled(vec![2, 3], 0.0f32);
    let arr_pos = filled(vec![2, 3], 5.0f32);
    let relu_neg = single(arr_neg.relu(relu32, relu64).get(&vec![1, 1])).unwrap();
    let relu_zero = single(arr_zero.relu(relu32, relu64).get(&vec![1, 1])).unwrap();
    let relu_pos = single(arr_pos.relu(relu32, relu64).get(&vec![1, 1])).unwrap();
    assert_eq!((relu_neg as i32, relu_zero as i32, relu_pos as f64), (0, 0, 5.0));
}

#[test]
fn test_exp() {
    let arr_neg = filled(vec![2, 3], -1.0f32);
    let arr_zero = filled(vec![2, 3], 0.0f32);
    let arr_pos = filled(vec![2, 3], 5.0f32);
    let exp_neg = single(arr_neg.exp(exp32, exp64).get(&vec![1, 1])).unwrap() as f64;
    let exp_zero = single(arr_zero.exp(exp32, exp64).get(&vec![1, 1])).unwrap() as f64;
    let exp_pos = single(arr_pos.exp(exp32, exp64).get(&vec![1, 1])).unwrap() as f64;
    assert_eq!((exp_neg, exp_zero, exp_pos), (0.36787945032119751, 1.0, 148.41316223144531));
}

#[test]
fn test_sum_all() {
    let arr = filled(vec![2, 3], 5.0f32);
    let sum_all = sum_of(&arr, vec![]).unwrap();
    assert_eq!(sum_all.shape(), vec![1]);
    assert_eq!(single(sum_all.get(&vec![0])), Some(6.0 * 5.0));
}

#[test]
fn test_sum() {
    let arr = filled(vec![2, 3, 4], 5.0f32);
    let sum = sum_of(&arr, vec![2, 1]).unwrap();
    assert_eq!(sum.shape(), vec![2]);
    assert_eq!(single(sum.get(&vec![0])), Some(60f32));
}

#[test]
fn elementwise_keeps_shape_and_combines() {
    let a = from_values(vec![2, 2], vec![1.0, 2.0, 3.0, 4.0]);
    let b = from_values(vec![2, 2], vec![10.0, 20.0, 30.0, 40.0]);
    let s = a.add(&b, add32, add64).unwrap();
    assert_eq!(s.shape(), vec![2, 2]);
    assert_eq!(single(s.get(&vec![1, 0])), Some(33.0));
    let d = b.sub(&a, |x: f32, y: f32| x - y, |x: f64, y: f64| x - y).unwrap();
    assert_eq!(single(d.get(&vec![1, 1])), Some(36.0));
    let p = a.mul(&b, mul32, mul64).unwrap();
    assert_eq!(single(p.get(&vec![0, 1])), Some(40.0));
    let q = b.div(&a, |x: f32, y: f32| x / y, |x: f64, y: f64| x / y).unwrap();
    assert_eq!(single(q.get(&vec![0, 0])), Some(10.0));
    assert_eq!(q.dtype(), DType::F32);
}

#[test]
fn elementwise_neutral_elements() {
    let a = from_values(vec![3], vec![1.5, -2.0, 7.25]);
    let zeros = filled(vec![3], 0.0);
    let ones = filled(vec![3], 1.0);
    let s = a.add(&zeros, add32, add64).unwrap();
    let p = a.mul(&ones, mul32, mul64).unwrap();
    for i in 0..3 {
        assert_eq!(single(s.get(&vec![i])), single(a.get(&vec![i])));
        assert_eq!(single(p.get(&vec![i])), single(a.get(&vec![i])));
    }
}

#[test]
fn elementwise_errors() {
    let a = filled(vec![2, 3], 1.0);
    let b = filled(vec![3, 2], 1.0);
    assert!(matches!(a.add(&b, add32, add64), Err(ArrayError::ShapeMismatch)));
    let c: Array = CpuArray::F64Array(Dense::full(vec![2, 3], 1.0f64));
    assert!(matches!(a.add(&c, add32, add64), Err(ArrayError::DTypeMismatch)));
}

#[test]
fn f64_elementwise_works() {
    let a: Array = CpuArray::F64Array(Dense::full(vec![2], 1.5f64));
    let b: Array = CpuArray::F64Array(Dense::full(vec![2], 2.0f64));
    let p = a.mul(&b, mul32, mul64).unwrap();
    assert_eq!(p.dtype(), DType::F64);
    assert!(matches!(p.get(&vec![1]), Some(Element::F64(v)) if v == 3.0));
}

#[test]
fn relu_mixed_values() {
    let a = from_values(vec![3], vec![-1.0, 0.0, 5.0]);
    let r = a.relu(relu32, relu64);
    let values: Vec<Option<f32>> = (0..3).map(|i| single(r.get(&vec![i]))).collect();
    assert_eq!(values, vec![Some(0.0), Some(0.0), Some(5.0)]);
    let rr = r.relu(relu32, relu64);
    for i in 0..3 {
        assert_eq!(single(rr.get(&vec![i])), single(r.get(&vec![i])));
    }
}

#[test]
fn exp_of_zeros_is_ones_and_positive() {
    let z = filled(vec![2, 2], 0.0);
    let e = z.exp(exp32, exp64);
    for i in 0..2 {
        for j in 0..2 {
            assert_eq!(single(e.get(&vec![i, j])), Some(1.0));
        }
    }
    let n = filled(vec![1], -30.0);
    assert!(single(n.exp(exp32, exp64).get(&vec![0])).unwrap() > 0.0);
}

#[test]
fn matmul_exact_product() {
    let a = from_values(vec![2, 3], vec![1.0, 2.0, 3.0, 4.0, 5.0, 6.0]);
    let b = from_values(vec![3, 2], vec![7.0, 8.0, 9.0, 10.0, 11.0, 12.0]);
    let c = matmul_of(&a, &b).unwrap();
    assert_eq!(c.shape(), vec![2, 2]);
    assert_eq!(single(c.get(&vec![0, 0])), Some(58.0));
    assert_eq!(single(c.get(&vec![0, 1])), Some(64.0));
    assert_eq!(single(c.get(&vec![1, 0])), Some(139.0));
    assert_eq!(single(c.get(&vec![1, 1])), Some(154.0));
}

#[test]
fn matmul_identity() {
    let a = from_values(vec![2, 2], vec![1.0, 2.0, 3.0, 4.0]);
    let i = from_values(vec![2, 2], vec![1.0, 0.0, 0.0, 1.0]);
    let c = matmul_of(&a, &i).unwrap();
    for r in 0..2 {
        for k in 0..2 {
            assert_eq!(single(c.get(&vec![r, k])), single(a.get(&vec![r, k])));
        }
    }
}

#[test]
fn matmul_errors() {
    let a = filled(vec![2, 3], 1.0);
    let b = filled(vec![2, 3], 1.0);
    assert!(matches!(matmul_of(&a, &b), Err(ArrayError::DimMismatch)));
    let v = filled(vec![3], 1.0);
    assert!(matches!(matmul_of(&a, &v), Err(ArrayError::UnsupportedShape)));
    let t = filled(vec![1, 1, 1], 1.0);
    assert!(matches!(matmul_of(&t, &t), Err(ArrayError::UnsupportedShape)));
    let w = filled(vec![4], 1.0);
    assert!(matches!(matmul_of(&v, &w), Err(ArrayError::DimMismatch)));
    let d: Array = CpuArray::F64Array(Dense::full(vec![3, 2], 1.0f64));
    assert!(matches!(matmul_of(&a, &d), Err(ArrayError::DTypeMismatch)));
}

#[test]
fn sum_along_one_axis() {
    let a = from_values(vec![2, 3], vec![1.0, 2.0, 3.0, 4.0, 5.0, 6.0]);
    let rows = sum_of(&a, vec![1]).unwrap();
    assert_eq!(rows.shape(), vec![2]);
    assert_eq!(single(rows.get(&vec![0])), Some(6.0));
    assert_eq!(single(rows.get(&vec![1])), Some(15.0));
    let cols = sum_of(&a, vec![0]).unwrap();
    assert_eq!(cols.shape(), vec![3]);
    assert_eq!(single(cols.get(&vec![2])), Some(9.0));
}

#[test]
fn sum_over_every_axis_has_shape_one() {
    let a = from_values(vec![2, 2], vec![1.0, 2.0, 3.0, 4.0]);
    let s = sum_of(&a, vec![1, 0]).unwrap();
    assert_eq!(s.shape(), vec![1]);
    assert_eq!(single(s.get(&vec![0])), Some(10.0));
}

#[test]
fn sum_axis_out_of_range() {
    let a = filled(vec![2, 3], 1.0);
    assert!(matches!(sum_of(&a, vec![2]), Err(ArrayError::AxisOutOfRange)));
}

#[test]
fn transpose_reverses_axes() {
    let a = from_values(vec![2, 3], vec![1.0, 2.0, 3.0, 4.0, 5.0, 6.0]);
    let t = a.transpose();
    assert_eq!(t.shape(), vec![3, 2]);
    assert_eq!(single(t.get(&vec![2, 1])), Some(6.0));
    assert_eq!(single(t.get(&vec![0, 1])), Some(4.0));
    let tt = t.transpose();
    assert_eq!(tt.shape(), vec![2, 3]);
    for i in 0..2 {
        for j in 0..3 {
            assert_eq!(single(tt.get(&vec![i, j])), single(a.get(&vec![i, j])));
        }
    }
}

#[test]
fn transpose_rank_three() {
    let values: Vec<f32> = (0..24).map(|v| v as f32).collect();
    let a = from_values(vec![2, 3, 4], values);
    let t = a.transpose();
    assert_eq!(t.shape(), vec![4, 3, 2]);
    assert_eq!(single(t.get(&vec![3, 1, 1])), single(a.get(&vec![1, 1, 3])));
    assert_eq!(single(t.get(&vec![2, 0, 1])), Some(14.0));
}

#[test]
fn get_out_of_range_is_none() {
    let a = filled(vec![2, 3], 1.0);
    assert!(a.get(&vec![2, 0]).is_none());
    assert!(a.get(&vec![0]).is_none());
    assert!(a.get(&vec![1, 2]).is_some());
}

#[test]
fn copy_from_checks_shape_and_dtype() {
    let mut a = filled(vec![2, 2], 1.0);
    let b = from_values(vec![2, 2], vec![4.0, 3.0, 2.0, 1.0]);
    assert_eq!(a.copy_from(&b), Ok(()));
    assert_eq!(single(a.get(&vec![0, 0])), Some(4.0));
    let c = filled(vec![4], 9.0);
    assert_eq!(a.copy_from(&c), Err(ArrayError::ShapeMismatch));
    assert_eq!(single(a.get(&vec![0, 0])), Some(4.0));
    let d: Array = CpuArray::F64Array(Dense::full(vec![2, 2], 1.0f64));
    assert_eq!(a.copy_from(&d), Err(ArrayError::DTypeMismatch));
}

#[test]
fn operations_leave_operands_unchanged() {
    let a = from_values(vec![2], vec![-3.0, 4.0]);
    let _ = a.relu(relu32, relu64);
    let _ = a.add(&a, add32, add64);
    let _ = a.transpose();
    assert_eq!(single(a.get(&vec![0])), Some(-3.0));
}

#[test]
fn fill_narrows_for_single_precision() {
    let a: Array = CpuArray::fill(2.5f64, vec![2, 2], DType::F32, &|v: f64| v as f32);
    assert_eq!(a.dtype(), DType::F32);
    assert_eq!(single(a.get(&vec![1, 1])), Some(2.5));
    let b: Array = CpuArray::fill(2.5f64, vec![3], DType::F64, &|v: f64| v as f32);
    assert!(matches!(b.get(&vec![2]), Some(Element::F64(v)) if v == 2.5));
}

#[test]
fn backend_mismatch() {
    let a: BackendData<f32, f64> = BackendData::Cpu(filled(vec![2], 1.0));
    let m: BackendData<f32, f64> = BackendData::Metal;
    assert!(matches!(a.add(&m, add32, add64), Err(ArrayError::BackendMismatch)));
    assert!(matches!(m.add(&m, add32, add64), Err(ArrayError::BackendUnsupported)));
    assert!(matches!(m.relu(relu32, relu64), Err(ArrayError::BackendUnsupported)));
    assert_eq!(m.backend(), Backend::Metal);
}

#[test]
fn backend_forwards_to_cpu() {
    let a: BackendData<f32, f64> = BackendData::Cpu(filled(vec![2, 3], 5.0));
    let s = a.sum(&vec![], 0.0f32, &add32, 0.0f64, &add64).unwrap();
    assert_eq!(s.shape(), vec![1]);
    assert!(matches!(s.get(&vec![0]), Some(Element::F32(v)) if v == 30.0));
    let e = a.exp(exp32, exp64).unwrap();
    assert_eq!(e.shape(), vec![2, 3]);
    let t = a.transpose().unwrap();
    assert_eq!(t.shape(), vec![3, 2]);
    let z = a.fill(0.0, vec![4], DType::F64, &|v: f64| v as f32);
    assert_eq!(z.backend(), Backend::Cpu);
    assert_eq!(z.shape(), vec![4]);
}

#[test]
fn size_and_dense_construction() {
    assert_eq!(tensorcore::shape::size_of(&vec![2, 3, 4]), Some(24));
    assert_eq!(tensorcore::shape::size_of(&vec![]), Some(1));
    assert_eq!(tensorcore::shape::size_of(&vec![0, usize::MAX, 2]), Some(0));
    assert_eq!(tensorcore::shape::size_of(&vec![usize::MAX, 2]), None);
    assert!(matches!(Dense::from_vec(vec![2, 2], vec![1.0f32; 3]), Err(ArrayError::ShapeMismatch)));
    assert_eq!(DType::F32.width(), 4);
    assert_eq!(DType::F64.width(), 8);
}

#[test]
fn zeros_and_ones_by_dtype() {
    let z: Array = CpuArray::zeros(vec![2, 3], DType::F64, 0.0f32, 0.0f64);
    assert_eq!(z.dtype(), DType::F64);
    assert_eq!(z.shape(), vec![2, 3]);
    assert!(matches!(z.get(&vec![1, 2]), Some(Element::F64(v)) if v == 0.0));
    let o: Array = CpuArray::ones(vec![4], DType::F32, 1.0f32, 1.0f64);
    assert_eq!(single(o.get(&vec![3])), Some(1.0));
    let scalar: Array = CpuArray::ones(vec![], DType::F32, 1.0f32, 1.0f64);
    assert_eq!(scalar.shape(), Vec::<usize>::new());
    assert_eq!(single(scalar.get(&vec![])), Some(1.0));
    let m: BackendData<f32, f64> = BackendData::Metal;
    assert_eq!(m.zeros(vec![2], DType::F32, 0.0f32, 0.0f64).backend(), Backend::Metal);
    assert!(m.shape().is_empty());
}

#[test]
fn reduction_size_check() {
    assert!(tensorcore::dense::reduction_fits_exec(&vec![2, 3, 4], &vec![2, 1]));
    assert!(!tensorcore::dense::reduction_fits_exec(&vec![0, usize::MAX, 2], &vec![0]));
    assert!(tensorcore::dense::reduction_fits_exec(&vec![0, usize::MAX, 2], &vec![1]));
}
