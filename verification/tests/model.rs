use mentat::model::generation::Generation;
use mentat::api::{mock_chat_response, ChatRequest};
use mentat::model::kv_cache::KVCache;
use mentat::model::loader::{Loader, RawTensor};
use mentat::telemetry::DataCollector;

fn safetensors_buffer(header: &str, data: &[u8]) -> Vec<u8> {
    let mut buf = (header.len() as u64).to_le_bytes().to_vec();
    buf.extend_from_slice(header.as_bytes());
    buf.extend_from_slice(data);
    buf
}

#[test]
fn decode_f32_bf16_f16_weights() {
    let header = r#"{"a":{"dtype":"F32","shape":[2],"data_offsets":[0,8]},"b":{"dtype":"BF16","shape":[2],"data_offsets":[8,12]},"c":{"dtype":"F16","shape":[5],"data_offsets":[12,22]}}"#;
    let mut data = Vec::new();
    data.extend_from_slice(&1.5f32.to_le_bytes());
    data.extend_from_slice(&(-2.0f32).to_le_bytes());
    data.extend_from_slice(&0x3F80u16.to_le_bytes()); // bf16 1.0
    data.extend_from_slice(&0xC000u16.to_le_bytes()); // bf16 -2.0
    data.extend_from_slice(&0x3C00u16.to_le_bytes()); // f16 1.0
    data.extend_from_slice(&0x0001u16.to_le_bytes()); // f16 smallest subnormal
    data.extend_from_slice(&0x8200u16.to_le_bytes()); // f16 negative subnormal
    data.extend_from_slice(&0xFC00u16.to_le_bytes()); // f16 -inf
    data.extend_from_slice(&0x7E00u16.to_le_bytes()); // f16 NaN
    let buf = safetensors_buffer(header, &data);
    let mut tensors = Loader::decode_weights(&buf).unwrap();
    tensors.sort_by(|x, y| x.name.cmp(&y.name));
    assert_eq!(tensors.len(), 3);
    assert_eq!(tensors[0].name, "a");
    assert_eq!(tensors[0].shape, vec![2]);
    assert_eq!(tensors[0].bits, vec![1.5f32.to_bits(), (-2.0f32).to_bits()]);
    assert_eq!(tensors[1].bits, vec![1.0f32.to_bits(), (-2.0f32).to_bits()]);
    let f16 = &tensors[2].bits;
    assert_eq!(f32::from_bits(f16[0]), 1.0);
    assert_eq!(f32::from_bits(f16[1]), 2.0f32.powi(-24));
    assert_eq!(f32::from_bits(f16[2]), -(2.0f32.powi(-15)));
    assert_eq!(f32::from_bits(f16[3]), f32::NEG_INFINITY);
    assert!(f32::from_bits(f16[4]).is_nan());
}

#[test]
fn decode_rejects_unsupported_and_malformed() {
    let header = r#"{"test":{"dtype":"I32","shape":[2,2],"data_offsets":[0,16]}}"#;
    let buf = safetensors_buffer(header, &[0u8; 16]);
    assert_eq!(
        Loader::decode_weights(&buf).err(),
        Some("unsupported data type in tensor test: I32".to_string())
    );
    let err = Loader::decode_weights(&[1, 2, 3]).err().unwrap();
    assert!(err.starts_with("safetensors error: "));
}

#[test]
fn kv_cache_update_and_clear() {
    let mut cache: KVCache<u32> = KVCache::new(2, 16);
    assert_eq!(cache.layers.len(), 2);
    assert!(cache.update(1, 10, 11).is_ok());
    assert_eq!(cache.layers[1].as_ref().map(|e| (e.k, e.v)), Some((10, 11)));
    assert_eq!(cache.update(7, 1, 1), Err("layer index 7 out of bounds".to_string()));
    cache.current_pos = 5;
    cache.clear();
    assert!(cache.layers.iter().all(|l| l.is_none()));
    assert_eq!(cache.current_pos, 0);
    assert_eq!(cache.max_seq_len, 16);
}

#[test]
fn mock_api_response() {
    let r = mock_chat_response(&ChatRequest { prompt: "hi".to_string(), model: None });
    assert_eq!(r.response, "(Mock) Mentat received prompt: hi");
}

#[test]
fn telemetry_record_only_when_enabled() {
    let off = DataCollector { enabled: false, filepath: std::path::PathBuf::from("x") };
    assert_eq!(off.record_for("hello", "world", "t".to_string()), None);
    let on = DataCollector { enabled: true, filepath: std::path::PathBuf::from("x") };
    let rec = on.record_for("hello", "world", "t".to_string()).unwrap();
    assert_eq!((rec.prompt.as_str(), rec.response.as_str(), rec.timestamp.as_str()), ("hello", "world", "t"));
}

fn raw(name: &str, dtype: &str, shape: Vec<usize>, data: Vec<u8>) -> RawTensor {
    RawTensor { name: name.to_string(), dtype: dtype.to_string(), shape, data }
}

#[test]
fn decode_tensors_in_order() {
    let ts = vec![
        raw("b", "BF16", vec![1], vec![0x80, 0x3F]),
        raw("a", "F32", vec![1, 1], 2.5f32.to_le_bytes().to_vec()),
    ];
    let ds = Loader::decode_tensors(&ts).unwrap();
    assert_eq!(ds.len(), 2);
    assert_eq!(ds[0].name, "b");
    assert_eq!(ds[0].bits, vec![1.0f32.to_bits()]);
    assert_eq!(ds[1].name, "a");
    assert_eq!(ds[1].shape, vec![1, 1]);
    assert_eq!(ds[1].bits, vec![2.5f32.to_bits()]);
}

#[test]
fn decode_tensors_stops_at_first_unsupported() {
    let ts = vec![
        raw("ok", "F16", vec![1], vec![0x00, 0x3C]),
        raw("ids", "I64", vec![1], vec![0; 8]),
        raw("flags", "BOOL", vec![1], vec![1]),
    ];
    assert_eq!(
        Loader::decode_tensors(&ts).err(),
        Some("unsupported data type in tensor ids: I64".to_string())
    );
    assert_eq!(Loader::decode_tensors(&vec![]).map(|d| d.len()), Ok(0));
}

#[test]
fn decode_refuses_offsets_that_overflow() {
    let header = r#"{"a":{"dtype":"U8","shape":[18446744073709551610],"data_offsets":[0,18446744073709551610]}}"#;
    let buf = safetensors_buffer(header, &[]);
    assert_eq!(
        Loader::decode_weights(&buf).err(),
        Some("safetensors error: tensor data offsets overflow".to_string())
    );
    let fine = r#"{"a":{"dtype":"U8","shape":[2],"data_offsets":[0,2]}}"#;
    assert_eq!(
        Loader::decode_weights(&safetensors_buffer(fine, &[1, 2])).err(),
        Some("unsupported data type in tensor a: U8".to_string())
    );
}

#[test]
fn generation_stops_at_limit_or_stop_token() {
    let mut g = Generation::new(3, Some(9));
    assert!(!g.finished);
    g.accept(4);
    g.accept(5);
    assert!(!g.finished);
    g.accept(6);
    assert!(g.finished);
    assert_eq!(g.generated, vec![4, 5, 6]);

    let mut s = Generation::new(10, Some(9));
    s.accept(1);
    s.accept(9);
    assert!(s.finished);
    assert_eq!(s.generated, vec![1, 9]);

    assert!(Generation::new(0, None).finished);
    let mut n = Generation::new(2, None);
    n.accept(9);
    assert!(!n.finished);
}
