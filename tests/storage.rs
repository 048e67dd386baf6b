use atomic_escrow::{EscrowRecord, Serializer, Storage};

type Person = (String, u32, f64);

struct BorshSer;

impl<T: borsh::BorshSerialize + borsh::BorshDeserialize> Serializer<T> for BorshSer {
    fn to_bytes(&self, data: &T) -> Result<Vec<u8>, String> {
        borsh::to_vec(data).map_err(|e| e.to_string())
    }

    fn from_bytes(&self, bytes: &[u8]) -> Result<T, String> {
        borsh::from_slice(bytes).map_err(|e| e.to_string())
    }
}

struct WincodeSer;

impl<T> Serializer<T> for WincodeSer
where
    T: wincode::SchemaWrite<wincode::config::DefaultConfig, Src = T>
        + for<'a> wincode::SchemaRead<'a, wincode::config::DefaultConfig, Dst = T>,
{
    fn to_bytes(&self, data: &T) -> Result<Vec<u8>, String> {
        wincode::serialize(data).map_err(|e| e.to_string())
    }

    fn from_bytes(&self, bytes: &[u8]) -> Result<T, String> {
        wincode::deserialize(bytes).map_err(|e| e.to_string())
    }
}

struct JsonSer;

impl<T: serde::Serialize + serde::de::DeserializeOwned> Serializer<T> for JsonSer {
    fn to_bytes(&self, data: &T) -> Result<Vec<u8>, String> {
        serde_json::to_vec(data).map_err(|e| e.to_string())
    }

    fn from_bytes(&self, bytes: &[u8]) -> Result<T, String> {
        serde_json::from_slice(bytes).map_err(|e| e.to_string())
    }
}

/// Refuses to encode zero.
struct Refusing;

impl Serializer<u32> for Refusing {
    fn to_bytes(&self, data: &u32) -> Result<Vec<u8>, String> {
        if *data == 0 {
            return Err("refused".to_string());
        }
        Ok(data.to_le_bytes().to_vec())
    }

    fn from_bytes(&self, bytes: &[u8]) -> Result<u32, String> {
        let b: [u8; 4] = bytes.try_into().map_err(|_| "length".to_string())?;
        Ok(u32::from_le_bytes(b))
    }
}

#[test]
fn test_borsh_serialization() {
    let p: Person = ("Andre".to_string(), 30, 500.50);

    let mut storage = Storage::new(BorshSer);
    assert!(!storage.has_data());

    storage.save(&p).unwrap();
    assert!(storage.has_data());

    let loaded = storage.load().unwrap();
    assert_eq!(loaded, p);
}

#[test]
fn test_bincode_serialization() {
    let p: Person = ("Pratham".to_string(), 22, 1000.75);

    let mut storage = Storage::new(WincodeSer);
    assert!(!storage.has_data());

    storage.save(&p).unwrap();
    assert!(storage.has_data());

    let loaded = storage.load().unwrap();
    assert_eq!(loaded, p);
}

#[test]
fn test_json_serialization() {
    let p: Person = ("Alice".to_string(), 45, 0.05);

    let mut storage = Storage::new(JsonSer);
    assert!(!storage.has_data());

    storage.save(&p).unwrap();
    assert!(storage.has_data());

    let loaded = storage.load().unwrap();
    assert_eq!(loaded, p);
}

#[test]
fn load_without_data_fails() {
    let storage: Storage<Person, JsonSer> = Storage::new(JsonSer);
    assert_eq!(storage.load(), Err("No data stored".to_string()));
}

#[test]
fn save_replaces_the_value_held() {
    let mut storage = Storage::new(BorshSer);
    storage.save(&7u32).unwrap();
    storage.save(&9u32).unwrap();
    assert_eq!(storage.load(), Ok(9u32));
}

#[test]
fn failed_save_keeps_storage_empty() {
    let mut storage = Storage::new(Refusing);
    assert_eq!(storage.save(&0), Err("refused".to_string()));
    assert!(!storage.has_data());
    assert_eq!(storage.load(), Err("No data stored".to_string()));
}

#[test]
fn failed_save_keeps_previous_value() {
    let mut storage = Storage::new(Refusing);
    storage.save(&5).unwrap();
    assert_eq!(storage.save(&0), Err("refused".to_string()));
    assert!(storage.has_data());
    assert_eq!(storage.load(), Ok(5));
}

#[test]
fn last_save_wins_for_each_encoder() {
    let mut b = Storage::new(BorshSer);
    b.save(&("a".to_string(), 1u32)).unwrap();
    b.save(&("b".to_string(), 2u32)).unwrap();
    assert_eq!(b.load(), Ok(("b".to_string(), 2u32)));
    let mut w = Storage::new(WincodeSer);
    w.save(&1u64).unwrap();
    w.save(&2u64).unwrap();
    assert_eq!(w.load(), Ok(2u64));
    let mut j = Storage::new(JsonSer);
    j.save(&vec![1u8]).unwrap();
    j.save(&vec![2u8, 3]).unwrap();
    assert_eq!(j.load(), Ok(vec![2u8, 3]));
}

#[test]
fn escrow_record_round_trips_through_storage() {
    let rec = EscrowRecord {
        seed: 123,
        maker: 1,
        asset_a: 10,
        asset_b: 11,
        receive: 10,
        creation_time: 1000000,
    };
    let fields = (rec.seed, rec.maker, rec.asset_a, rec.asset_b, rec.receive, rec.creation_time);
    let mut storage = Storage::new(BorshSer);
    storage.save(&fields).unwrap();
    let (seed, maker, asset_a, asset_b, receive, creation_time) = storage.load().unwrap();
    let back = EscrowRecord { seed, maker, asset_a, asset_b, receive, creation_time };
    assert_eq!(back, rec);
    assert_eq!(back.seed, 123);
    assert_eq!(back.receive, 10);
    assert_eq!(back.creation_time, 1000000);
}
