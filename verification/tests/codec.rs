use brakes::types::codec::{decode_instance, encode_instance};
use brakes::types::fixed_window::FixedWindowInstance;
use brakes::types::leaky_bucket::LeakyBucketInstance;
use brakes::types::sliding_window::SlidingWindowInstance;
use brakes::types::token_bucket::TokenBucketInstance;
use brakes::types::{LimiterInstance, RateLimiterError};

fn samples() -> Vec<LimiterInstance> {
    vec![
        LimiterInstance::FixedWindowInstance(FixedWindowInstance::new(0, 0)),
        LimiterInstance::FixedWindowInstance(FixedWindowInstance::new(1_700_000_000_123, 42)),
        LimiterInstance::FixedWindowInstance(FixedWindowInstance::new(u128::MAX, u32::MAX)),
        LimiterInstance::SlidingWindowInstance(SlidingWindowInstance {
            current: FixedWindowInstance::new(2000, 3),
            previous: FixedWindowInstance::new(1000, 5),
        }),
        LimiterInstance::TokenBucketInstance(TokenBucketInstance::new(77, 450)),
        LimiterInstance::TokenBucketInstance(TokenBucketInstance::new(u128::MAX, u128::MAX - 1)),
        LimiterInstance::LeakyBucketInstance(LeakyBucketInstance::new(99, 4)),
        LimiterInstance::LeakyBucketInstance(LeakyBucketInstance::new(0, u32::MAX)),
    ]
}

#[test]
fn states_are_read_back_as_written() {
    for s in samples() {
        let bytes = s.to_bytes().unwrap();
        assert_eq!(LimiterInstance::from_bytes(bytes.clone()).unwrap(), s);
        assert_eq!(encode_instance(&s), bytes);
        assert_eq!(decode_instance(&bytes).unwrap(), s);
    }
}

#[test]
fn layout_is_tag_then_fields_little_endian() {
    let fixed = LimiterInstance::FixedWindowInstance(FixedWindowInstance::new(0x0102, 7));
    let mut expected = vec![0u8, 0, 0, 0, 2, 1];
    expected.extend_from_slice(&[0u8; 14]);
    expected.extend_from_slice(&[7, 0, 0, 0]);
    assert_eq!(fixed.to_bytes().unwrap(), expected);

    let leaky = LimiterInstance::LeakyBucketInstance(LeakyBucketInstance::new(0x0a0b0c, 258));
    let mut expected = vec![3u8, 0, 0, 0, 2, 1, 0, 0, 0x0c, 0x0b, 0x0a];
    expected.extend_from_slice(&[0u8; 13]);
    assert_eq!(leaky.to_bytes().unwrap(), expected);

    let token = LimiterInstance::TokenBucketInstance(TokenBucketInstance::new(5, 6));
    let bytes = token.to_bytes().unwrap();
    assert_eq!(bytes.len(), 36);
    assert_eq!(&bytes[..5], &[2, 0, 0, 0, 6]);
    assert_eq!(bytes[20], 5);

    let sliding = LimiterInstance::SlidingWindowInstance(SlidingWindowInstance {
        current: FixedWindowInstance::new(1, 2),
        previous: FixedWindowInstance::new(3, 4),
    });
    let bytes = sliding.to_bytes().unwrap();
    assert_eq!(bytes.len(), 44);
    assert_eq!((bytes[0], bytes[4], bytes[20], bytes[24], bytes[40]), (1, 1, 2, 3, 4));
}

#[test]
fn layout_is_the_fixed_width_encoding_of_the_fields() {
    let fixed = LimiterInstance::FixedWindowInstance(FixedWindowInstance::new(1_700_000_000_123, 42));
    assert_eq!(
        fixed.to_bytes().unwrap(),
        bincode::serialize(&(0u32, 1_700_000_000_123u128, 42u32)).unwrap()
    );
    let sliding = LimiterInstance::SlidingWindowInstance(SlidingWindowInstance {
        current: FixedWindowInstance::new(2000, 3),
        previous: FixedWindowInstance::new(1000, 5),
    });
    assert_eq!(
        sliding.to_bytes().unwrap(),
        bincode::serialize(&(1u32, (2000u128, 3u32), (1000u128, 5u32))).unwrap()
    );
    let token = LimiterInstance::TokenBucketInstance(TokenBucketInstance::new(77, 450));
    assert_eq!(
        token.to_bytes().unwrap(),
        bincode::serialize(&(2u32, 450u128, 77u128)).unwrap()
    );
    let leaky = LimiterInstance::LeakyBucketInstance(LeakyBucketInstance::new(99, 4));
    assert_eq!(
        leaky.to_bytes().unwrap(),
        bincode::serialize(&(3u32, 4u32, 99u128)).unwrap()
    );
    let read: (u32, u32, u128) = bincode::deserialize(&leaky.to_bytes().unwrap()).unwrap();
    assert_eq!(read, (3, 4, 99));
}

#[test]
fn bytes_that_are_no_state_are_malformed() {
    let good = LimiterInstance::FixedWindowInstance(FixedWindowInstance::new(5, 6))
        .to_bytes()
        .unwrap();
    for bad in [
        vec![],
        vec![0u8, 0, 0],
        good[..23].to_vec(),
        [good.clone(), vec![0]].concat(),
        [vec![4u8, 0, 0, 0], good[4..].to_vec()].concat(),
        [vec![0u8, 0, 0, 1], good[4..].to_vec()].concat(),
        [vec![1u8, 0, 0, 0], good[4..].to_vec()].concat(),
        [vec![2u8, 0, 0, 0], good[4..].to_vec()].concat(),
    ] {
        assert!(matches!(
            LimiterInstance::from_bytes(bad),
            Err(RateLimiterError::MalformedValue)
        ));
    }
    // a leaky bucket is as long as a fixed window: the tag tells them apart
    let as_leaky = [vec![3u8, 0, 0, 0], good[4..].to_vec()].concat();
    assert!(matches!(
        LimiterInstance::from_bytes(as_leaky),
        Ok(LimiterInstance::LeakyBucketInstance(_))
    ));
}

#[test]
fn a_state_is_of_one_kind() {
    for s in samples() {
        let kinds = [
            s.as_fixed_window_instance().is_ok(),
            s.as_sliding_window_instance().is_ok(),
            s.as_token_bucket_instance().is_ok(),
            s.as_leaky_bucket_instance().is_ok(),
        ];
        assert_eq!(kinds.iter().filter(|k| **k).count(), 1);
        assert_eq!(kinds[0], matches!(s, LimiterInstance::FixedWindowInstance(_)));
        assert_eq!(kinds[3], matches!(s, LimiterInstance::LeakyBucketInstance(_)));
    }
    let token = LimiterInstance::TokenBucketInstance(TokenBucketInstance::new(77, 450));
    assert!(matches!(
        token.as_fixed_window_instance(),
        Err(RateLimiterError::WrongLimiterInstanceType)
    ));
    assert_eq!(token.as_token_bucket_instance().unwrap(), TokenBucketInstance::new(77, 450));
}

#[test]
fn state_of_another_algorithm_is_of_the_wrong_type() {
    use_each_limiter_on_each_state();
}

fn use_each_limiter_on_each_state() {
    let window = std::time::Duration::from_millis(100);
    let fixed = brakes::types::fixed_window::FixedWindow::new(100, window);
    let sliding = brakes::types::sliding_window::SlidingWindowCounter::new(100, window);
    let token = brakes::types::token_bucket::TokenBucket::new(100, window);
    let leaky = brakes::types::leaky_bucket::LeakyBucket::new(100, window);
    for s in samples() {
        let bytes = s.to_bytes().unwrap();
        let results = [
            brakes::types::LimiterType::is_rate_limited_now(&fixed, 50, Some(bytes.clone())),
            brakes::types::LimiterType::is_rate_limited_now(&sliding, 50, Some(bytes.clone())),
            brakes::types::LimiterType::is_rate_limited_now(&token, 50, Some(bytes.clone())),
            brakes::types::LimiterType::is_rate_limited_now(&leaky, 50, Some(bytes.clone())),
        ];
        let own = match s {
            LimiterInstance::FixedWindowInstance(_) => 0,
            LimiterInstance::SlidingWindowInstance(_) => 1,
            LimiterInstance::TokenBucketInstance(_) => 2,
            LimiterInstance::LeakyBucketInstance(_) => 3,
        };
        for (i, r) in results.iter().enumerate() {
            if i != own {
                assert!(matches!(r, Err(RateLimiterError::WrongLimiterInstanceType)));
            } else {
                assert!(!matches!(
                    r,
                    Err(RateLimiterError::WrongLimiterInstanceType)
                        | Err(RateLimiterError::MalformedValue)
                ));
            }
        }
    }
}
