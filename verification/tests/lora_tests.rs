use mnemo_core::models::lora::{lora_base_seed, lora_draws, lora_key, DEFAULT_RANK};

#[test]
fn test_key_string_with_agent() {
    let key = lora_key(1, &Some("my-agent".to_string()));
    assert!(key.ends_with(":my-agent"));
}

#[test]
fn test_key_string_global() {
    let key = lora_key(1, &None);
    assert!(key.ends_with(":__global__"));
}

#[test]
fn lora_key_exact() {
    assert_eq!(lora_key(1, &None), "00000000-0000-0000-0000-000000000001:__global__");
    assert_eq!(
        lora_key(1, &Some("my-agent".to_string())),
        "00000000-0000-0000-0000-000000000001:my-agent"
    );
}

#[test]
fn lora_seed_exact_values() {
    assert_eq!(lora_base_seed(1, &None), 1966893824178288855);
    assert_eq!(lora_base_seed(1, &Some("my-agent".to_string())), 3380214436551141200);
    assert_eq!(
        lora_base_seed(0x0123456789abcdef0123456789abcdef, &Some("agent".to_string())),
        5785559893761745369
    );
}

#[test]
fn lora_seed_differs_per_agent() {
    assert_ne!(lora_base_seed(1, &None), lora_base_seed(1, &Some("a".to_string())));
    assert_ne!(lora_base_seed(1, &None), lora_base_seed(2, &None));
}

#[test]
fn lora_draws_exact_values() {
    let seed = lora_base_seed(1, &None);
    assert_eq!(lora_draws(seed, 3), vec![13669812, 2680744, 8468892]);
    let d = lora_draws(seed, DEFAULT_RANK * 4);
    assert_eq!(d.len(), 32);
    assert!(d.iter().all(|&x| x < (1 << 24)));
    assert!(lora_draws(seed, 0).is_empty());
}
