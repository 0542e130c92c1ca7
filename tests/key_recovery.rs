use data_restore::engine::{DataRestoreConfig, FranklinAccountsStates};
use data_restore::types::{Event, EventTopics, Word};
use franklin_crypto::alt_babyjubjub::AltJubjubBn256;
use franklin_crypto::bellman::pairing::bn256::{Bn256, Fr};
use franklin_crypto::bellman::pairing::ff::{PrimeField, PrimeFieldRepr};
use franklin_crypto::jubjub::{edwards, Unknown};

fn to_word(f: &Fr) -> Word {
    let mut bytes = [0u8; 32];
    f.into_repr().write_be(&mut bytes[..]).unwrap();
    Word {
        hi: u128::from_be_bytes(bytes[..16].try_into().unwrap()),
        lo: u128::from_be_bytes(bytes[16..].try_into().unwrap()),
    }
}

fn on_curve_point() -> (Fr, Fr) {
    let params = AltJubjubBn256::new();
    let mut n: u64 = 2;
    loop {
        let y = Fr::from_str(&n.to_string()).unwrap();
        if let Some(p) = edwards::Point::<Bn256, Unknown>::get_for_y(y, true, &params) {
            return p.into_xy();
        }
        n += 1;
    }
}

#[test]
fn key_recovery_round_trip() {
    let (x, y) = on_curve_point();
    let xw = to_word(&x);
    let yw = to_word(&y);
    assert!(yw.hi >> 127 == 0);
    let sign = xw.lo & 1 == 1;
    let key = Word { hi: if sign { yw.hi | (1u128 << 127) } else { yw.hi }, lo: yw.lo };
    let topics = EventTopics { action: Word { hi: 0, lo: 1 }, cancel: Word { hi: 0, lo: 2 } };
    let states = FranklinAccountsStates::new(DataRestoreConfig { deposit_topics: topics, exit_topics: topics });
    let e = Event { topic: topics.action, account: 3, key, amount: Word { hi: 0, lo: 9 }, block_number: 1, log_index: 0, removed: false };
    let txs = states.get_all_transactions_from_deposit_batch(vec![e], vec![]).unwrap();
    assert_eq!(txs.len(), 1);
    assert_eq!(txs[0].pub_y, yw);
    assert_eq!(txs[0].pub_x, xw);
    assert!(txs[0].amount.eq_value(&data_restore::amount::Amount::from_u128(9)));
}
