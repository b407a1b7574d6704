//! Adapters of models, pools of buffers and precisions.

use kizzasi::error::{InferenceError, InferenceResult};
use kizzasi::inference::lora::{
    AdapterMath, LoraAdapter, LoraAdapterBuilder, LoraAdapterLoader, LoraAdapterManager,
    LoraConfig,
};
use kizzasi::inference::pool::{BufferKey, TensorPool};
use kizzasi::inference::precision::{
    ComputePrecision, PrecisionConfig, PrecisionConverter, PrecisionMath, PrecisionMode,
    PrecisionStats,
};
use kizzasi::matrix::Matrix;
use kizzasi::names::NamedMap;
use kizzasi::number::{Double, Single};

fn single(x: f32) -> Single {
    Single::from_bits(x.to_bits())
}

fn float(x: Single) -> f32 {
    f32::from_bits(x.to_bits())
}

fn double(x: f64) -> Double {
    Double::from_bits(x.to_bits())
}

fn wide(x: Double) -> f64 {
    f64::from_bits(x.to_bits())
}

fn singles(values: &[f32]) -> Vec<Single> {
    values.iter().map(|&x| single(x)).collect()
}

fn floats(values: &[Single]) -> Vec<f32> {
    values.iter().map(|&x| float(x)).collect()
}

#[derive(Debug, Clone, Copy)]
struct Numeric;

impl AdapterMath for Numeric {
    fn dot(&self, a: &[Single], b: &[Single]) -> Single {
        single(a.iter().zip(b.iter()).map(|(&x, &y)| float(x) * float(y)).sum())
    }

    fn product(&self, a: Single, b: Single) -> Single {
        single(float(a) * float(b))
    }

    fn sum(&self, a: Single, b: Single) -> Single {
        single(float(a) + float(b))
    }

    fn ratio(&self, alpha: Single, rank: usize) -> Single {
        single(float(alpha) / rank as f32)
    }
}

impl PrecisionMath for Numeric {
    fn to_half(&self, x: Single) -> u16 {
        half::f16::from_f32(float(x)).to_bits()
    }

    fn from_half(&self, x: u16) -> Single {
        single(half::f16::from_bits(x).to_f32())
    }

    fn to_brain(&self, x: Single) -> u16 {
        half::bf16::from_f32(float(x)).to_bits()
    }

    fn from_brain(&self, x: u16) -> Single {
        single(half::bf16::from_bits(x).to_f32())
    }

    fn saved(&self, size: usize, factor: Single) -> usize {
        (size as f32 * (1.0 - float(factor))) as usize
    }

    fn running_mean(&self, mean: Double, n: usize, last: Double) -> Double {
        let n = n as f64;
        double((wide(mean) * (n - 1.0) + wide(last)) / n)
    }
}

fn matrix(rows: usize, cols: usize, values: Vec<f32>) -> Matrix {
    Matrix::from_vec(rows, cols, singles(&values)).unwrap()
}

// Adapters of models.

#[test]
fn pooled_elements_can_be_changed() {
    let mut pool = TensorPool::new();
    let mut buffer = pool.acquire_f32(BufferKey::single(3));
    buffer.data_mut()[1] = single(2.0);
    assert_eq!(floats(buffer.data()), vec![0.0, 2.0, 0.0]);
}

#[test]
fn test_lora_config() {
    let config = LoraConfig::new().rank(16).alpha(single(32.0));

    assert_eq!(config.rank, 16);
    assert_eq!(float(config.alpha), 32.0);
    assert_eq!(float(config.scaling(&Numeric)), 2.0);
}

#[test]
fn test_lora_adapter_creation() {
    let lora_a = matrix(4, 8, vec![1.0; 32]);
    let lora_b = matrix(8, 4, vec![0.5; 32]);

    let adapter = LoraAdapter::new(lora_a, lora_b, single(0.5), "test".to_string()).unwrap();

    assert_eq!(adapter.rank(), 4);
    assert_eq!(adapter.in_features(), 8);
    assert_eq!(adapter.out_features(), 8);
}

#[test]
fn test_lora_adapter_dimension_mismatch() {
    let lora_a = matrix(4, 8, vec![1.0; 32]);
    let lora_b = matrix(8, 5, vec![0.5; 40]);

    let result = LoraAdapter::new(lora_a, lora_b, single(0.5), "test".to_string());
    assert!(result.is_err());
}

#[test]
fn test_lora_adapter_apply() {
    let lora_a = matrix(2, 4, vec![0.1; 8]);
    let lora_b = matrix(4, 2, vec![0.2; 8]);
    let adapter = LoraAdapter::new(lora_a, lora_b, single(1.0), "test".to_string()).unwrap();

    let output = adapter.apply(&Numeric, &singles(&[1.0, 2.0, 3.0, 4.0])).unwrap();

    assert_eq!(output.len(), 4);
    for (out, x) in floats(&output).iter().zip([1.0, 2.0, 3.0, 4.0]) {
        assert!((out - (x + 0.4)).abs() < 1e-5);
    }
    assert!(adapter.apply(&Numeric, &singles(&[1.0])).is_err());
}

fn small_adapter(name: &str) -> LoraAdapter {
    let lora_a = matrix(2, 4, vec![0.1; 8]);
    let lora_b = matrix(4, 2, vec![0.2; 8]);
    LoraAdapter::new(lora_a, lora_b, single(1.0), name.to_string()).unwrap()
}

#[test]
fn test_lora_manager() {
    let mut manager = LoraAdapterManager::new(LoraConfig::new());

    manager.register_adapter(small_adapter("adapter1"));
    assert_eq!(manager.list_adapters().len(), 1);

    manager.activate("adapter1").unwrap();
    assert!(manager.active_adapter().is_some());

    manager.deactivate();
    assert!(manager.active_adapter().is_none());
    assert!(manager.activate("adapter2").is_err());
    assert!(manager.remove_adapter("adapter1").is_some());
    assert!(manager.get_adapter("adapter1").is_none());
}

#[test]
fn test_lora_manager_apply_without_adapter() {
    let manager = LoraAdapterManager::new(LoraConfig::new());
    let input = singles(&[1.0, 2.0, 3.0, 4.0]);
    let output = manager.apply(&Numeric, &input).unwrap();
    assert_eq!(output, input);
}

#[test]
fn test_lora_builder() {
    let adapter = LoraAdapterBuilder::new("test".to_string())
        .lora_a(matrix(2, 4, vec![0.1; 8]))
        .lora_b(matrix(4, 2, vec![0.2; 8]))
        .scaling(single(0.5))
        .build()
        .unwrap();

    assert_eq!(adapter.name, "test");
    assert_eq!(float(adapter.scaling), 0.5);
}

#[test]
fn test_lora_builder_missing_matrix() {
    let result = LoraAdapterBuilder::new("test".to_string())
        .lora_a(matrix(2, 4, vec![0.1; 8]))
        .build();
    assert!(result.is_err());
}

#[test]
fn test_lora_adapter_batch() {
    let adapter = small_adapter("test");
    let inputs = matrix(
        3,
        4,
        vec![1.0, 2.0, 3.0, 4.0, 5.0, 6.0, 7.0, 8.0, 9.0, 10.0, 11.0, 12.0],
    );
    let outputs = adapter.apply_batch(&Numeric, &inputs).unwrap();
    assert_eq!(outputs.nrows(), 3);
    let first = adapter.apply(&Numeric, &singles(&[1.0, 2.0, 3.0, 4.0])).unwrap();
    assert_eq!(outputs.row(0), first.as_slice());
}

#[test]
fn blank_adapters_change_nothing() {
    let loader = LoraAdapterLoader::new("weights".to_string());
    assert_eq!(loader.base_path(), "weights");
    let config = LoraConfig::new().rank(4);
    let adapter = loader.blank_adapter(&Numeric, "blank", &config).unwrap();
    assert_eq!(adapter.rank(), 4);
    assert_eq!(adapter.in_features(), 128);
    let input = singles(&vec![2.0; 128]);
    assert_eq!(adapter.apply(&Numeric, &input).unwrap(), input);
}

// Pools of buffers.

#[test]
fn test_buffer_pool_basic() {
    let mut pool = TensorPool::new();
    let key = BufferKey::single(1024);

    let buf1 = pool.acquire_f32(key.clone());
    assert_eq!(buf1.len(), 1024);
    let stats1 = pool.stats();
    assert_eq!(stats1.total_allocations, 1);
    assert_eq!(stats1.total_reuses, 0);

    pool.release_f32(buf1);
    let buf2 = pool.acquire_f32(key.clone());
    let stats2 = pool.stats();
    assert_eq!(stats2.total_allocations, 1);
    assert_eq!(stats2.total_reuses, 1);
    assert_eq!(stats2.total_returns, 1);

    pool.release_f32(buf2);
}

#[test]
fn test_buffer_pool_multiple_keys() {
    let mut pool = TensorPool::new();
    let buf1 = pool.acquire_f32(BufferKey::single(512));
    let buf2 = pool.acquire_f32(BufferKey::single(1024));
    let buf3 = pool.acquire_f64(BufferKey::double(512));

    assert_eq!(buf1.len(), 512);
    assert_eq!(buf2.len(), 1024);
    assert_eq!(buf3.len(), 512);

    pool.release_f32(buf1);
    pool.release_f32(buf2);
    pool.release_f64(buf3);

    let stats = pool.stats();
    assert_eq!(stats.total_allocations, 3);
    assert_eq!(stats.total_returns, 3);
}

#[test]
fn test_buffer_pool_capacity_limit() {
    let mut pool = TensorPool::with_capacity(2);
    let key = BufferKey::single(100);

    let buf1 = pool.acquire_f32(key.clone());
    let buf2 = pool.acquire_f32(key.clone());
    let buf3 = pool.acquire_f32(key.clone());

    pool.release_f32(buf1);
    pool.release_f32(buf2);
    pool.release_f32(buf3);

    let stats = pool.stats();
    assert_eq!(stats.total_allocations, 3);
    assert_eq!(stats.total_reuses, 0);
    assert_eq!(stats.total_returns, 3);
    assert_eq!(stats.total_discards, 1);
    assert_eq!(pool.pooled_count(), 2);
}

#[test]
fn test_buffer_pool_tagged_keys() {
    let mut pool = TensorPool::new();
    let key1 = BufferKey::single(1024).with_tag("state".to_string());
    let key2 = BufferKey::single(1024).with_tag("output".to_string());
    let key3 = BufferKey::single(1024);

    let buf1 = pool.acquire_f32(key1.clone());
    let buf2 = pool.acquire_f32(key2.clone());
    let buf3 = pool.acquire_f32(key3.clone());

    assert_eq!(buf1.len(), 1024);
    assert_eq!(buf2.len(), 1024);
    assert_eq!(buf3.len(), 1024);

    pool.release_f32(buf1);
    pool.release_f32(buf2);
    pool.release_f32(buf3);

    let stats = pool.stats();
    assert_eq!(stats.total_allocations, 3);
    assert_eq!(pool.pooled_count(), 3);
    pool.clear();
    assert_eq!(pool.pooled_count(), 0);
}

#[test]
fn test_buffer_clear() {
    let mut pool = TensorPool::new();
    let key = BufferKey::single(100);

    let mut buf = pool.acquire_f32(key.clone());
    buf.set(0, single(42.0));
    pool.release_f32(buf);

    let buf2 = pool.acquire_f32(key);
    assert_eq!(float(buf2.data()[0]), 0.0);
}

#[test]
fn test_pooled_buffer_into_vec() {
    let mut pool = TensorPool::new();
    let mut buf = pool.acquire_f32(BufferKey::single(100));
    buf.set(0, single(42.0));

    let vec = buf.into_vec();
    assert_eq!(float(vec[0]), 42.0);
    assert_eq!(vec.len(), 100);

    let stats = pool.stats();
    assert_eq!(stats.total_returns, 0);
}

// Precisions.

#[test]
fn test_precision_mode_creation() {
    let mode = PrecisionMode::FP32;
    assert_eq!(mode.name(), "FP32");
    assert!(!mode.is_reduced_precision());
}

#[test]
fn test_precision_mode_fp16() {
    let mode = PrecisionMode::FP16;
    assert_eq!(mode.name(), "FP16");
    assert!(mode.is_reduced_precision());
    assert_eq!(float(mode.memory_reduction_factor()), 0.5);
}

#[test]
fn test_precision_mode_bf16() {
    let mode = PrecisionMode::BF16;
    assert_eq!(mode.name(), "BF16");
    assert!(mode.is_reduced_precision());
    assert_eq!(float(mode.memory_reduction_factor()), 0.5);
}

#[test]
fn test_precision_mode_mixed() {
    let mode = PrecisionMode::Mixed { compute: ComputePrecision::FP16, accumulate_fp32: true };
    assert_eq!(mode.name(), "Mixed-FP16");
    assert!(mode.is_reduced_precision());
}

#[test]
fn test_precision_config_builder() {
    let config =
        PrecisionConfig::new().fp16().loss_scale(single(128.0)).dynamic_loss_scale(true);

    assert_eq!(config.mode, PrecisionMode::FP16);
    assert_eq!(float(config.loss_scale), 128.0);
    assert!(config.dynamic_loss_scale);
}

#[test]
fn test_fp16_conversion_1d() {
    let converter = PrecisionConverter::new(PrecisionConfig::new().fp16());
    let data = singles(&[1.0, 2.5, -3.75, 0.0]);
    let fp16_data = converter.to_fp16_1d(&Numeric, &data);
    assert_eq!(fp16_data[0], 0x3c00);
    let restored = converter.from_fp16_1d(&Numeric, &fp16_data);

    for (orig, rest) in floats(&data).iter().zip(floats(&restored)) {
        assert!((orig - rest).abs() < 0.001);
    }
}

#[test]
fn test_bf16_conversion_1d() {
    let converter = PrecisionConverter::new(PrecisionConfig::new().bf16());
    let data = singles(&[1.0, 2.5, -3.75, 0.0]);
    let bf16_data = converter.to_bf16_1d(&Numeric, &data);
    assert_eq!(bf16_data[0], 0x3f80);
    let restored = converter.from_bf16_1d(&Numeric, &bf16_data);

    for (orig, rest) in floats(&data).iter().zip(floats(&restored)) {
        assert!((orig - rest).abs() < 0.01);
    }
}

fn twice(x: &[Single]) -> Vec<Single> {
    x.iter().map(|&v| single(float(v) * 2.0)).collect()
}

#[test]
fn test_convert_and_compute() {
    let converter = PrecisionConverter::new(PrecisionConfig::new().fp16());
    let data = [1.0, 2.0, 3.0, 4.0];
    let result = converter.convert_and_compute_1d(&Numeric, &singles(&data), twice).unwrap();

    for (i, val) in floats(&result).iter().enumerate() {
        let expected = data[i] * 2.0;
        assert!((val - expected).abs() < 0.01);
    }
}

#[test]
fn test_precision_stats() {
    let mut stats = PrecisionStats::new();

    assert_eq!(stats.num_conversions, 0);
    assert_eq!(stats.memory_saved, 0);

    let mode = PrecisionMode::FP16;
    stats.record_conversion(&Numeric, 1000, &mode);

    assert_eq!(stats.num_conversions, 1);
    assert_eq!(stats.memory_saved, 500);

    stats.record_error(&Numeric, double(0.001));
    assert!(wide(stats.avg_error) > 0.0);
    assert!(wide(stats.max_error) > 0.0);
}

#[test]
fn test_mixed_precision_compute() {
    let converter = PrecisionConverter::new(PrecisionConfig::new().mixed_fp16(true));
    let data = [1.0, 2.0, 3.0, 4.0];
    let result = converter.convert_and_compute_1d(&Numeric, &singles(&data), twice).unwrap();

    for (i, val) in floats(&result).iter().enumerate() {
        let expected = data[i] * 2.0;
        assert!((val - expected).abs() < 0.001);
    }
}

#[test]
fn test_fp16_2d_conversion() {
    let converter = PrecisionConverter::new(PrecisionConfig::new().fp16());
    let data = matrix(2, 3, vec![1.0, 2.0, 3.0, 4.0, 5.0, 6.0]);

    let fp16_data = converter.to_fp16_2d(&Numeric, &data);
    let restored = converter.from_fp16_2d(&Numeric, &fp16_data, (2, 3)).unwrap();

    assert_eq!((restored.nrows(), restored.ncols()), (2, 3));
    for (orig, rest) in floats(data.values()).iter().zip(floats(restored.values())) {
        assert!((orig - rest).abs() < 0.001);
    }
}

#[test]
fn samples_that_do_not_fit_the_shape_are_refused() {
    let converter = PrecisionConverter::new(PrecisionConfig::new().fp16());
    let fp16_data = vec![0u16; 6];
    let text = |r: InferenceResult<Matrix>| match r {
        Err(InferenceError::ForwardError(text)) => text,
        _ => panic!("expected an error of the shape"),
    };
    assert_eq!(
        text(converter.from_fp16_2d(&Numeric, &fp16_data, (2, 2))),
        "Shape error in FP16 conversion: ShapeError/IncompatibleShape: incompatible shapes"
    );
    assert_eq!(
        text(converter.from_bf16_2d(&Numeric, &fp16_data, (2, 4))),
        "Shape error in BF16 conversion: ShapeError/OutOfBounds: out of bounds indexing"
    );
    assert_eq!(
        text(converter.from_bf16_2d(&Numeric, &[], (0, usize::MAX))),
        "Shape error in BF16 conversion: ShapeError/Overflow: arithmetic overflow"
    );
    assert!(converter.from_bf16_2d(&Numeric, &[], (0, 7)).is_ok());
}

#[test]
fn test_bf16_2d_conversion() {
    let converter = PrecisionConverter::new(PrecisionConfig::new().bf16());
    let data = matrix(2, 2, vec![1.0, 2.0, 3.0, 4.0]);

    let bf16_data = converter.to_bf16_2d(&Numeric, &data);
    let restored = converter.from_bf16_2d(&Numeric, &bf16_data, (2, 2)).unwrap();

    assert_eq!((restored.nrows(), restored.ncols()), (2, 2));
    for (orig, rest) in floats(data.values()).iter().zip(floats(restored.values())) {
        assert!((orig - rest).abs() < 0.01);
    }
}

// Tables and names.

#[test]
fn tables_are_read_row_by_row() {
    let m = matrix(2, 3, vec![1.0, 2.0, 3.0, 4.0, 5.0, 6.0]);
    assert_eq!(float(m.get(1, 0)), 4.0);
    assert_eq!(floats(m.row(0)), vec![1.0, 2.0, 3.0]);
    assert!(Matrix::from_vec(2, 2, singles(&[1.0])).is_none());
    assert_eq!(floats(Matrix::zeros(1, 2).values()), vec![0.0, 0.0]);
}

#[test]
fn names_keep_their_values() {
    let mut map: NamedMap<u32> = NamedMap::new();
    assert_eq!(map.insert("a".to_string(), 1), None);
    assert_eq!(map.insert("b".to_string(), 2), None);
    assert_eq!(map.insert("a".to_string(), 3), Some(1));
    assert_eq!(map.get("a"), Some(&3));
    assert_eq!(map.len(), 2);
    assert_eq!(map.remove("b"), Some(2));
    assert!(!map.contains_key("b"));
    assert_eq!(map.names(), vec!["a".to_string()]);
}
