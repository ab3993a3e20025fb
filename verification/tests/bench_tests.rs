use rate_gate::bench::{chunk_bounds, compute, compute_range};
use rate_gate::prompt::parse_yes_no;
use rate_gate::report::{
    max_frequency_mhz, response_summary, select_brand, select_cpu_count, select_frequency,
    select_vendor,
};

#[test]
fn compute_folds_multiply_add() {
    let mut sum: usize = 0;
    compute(&mut sum, 3);
    assert_eq!(sum, 12);
    compute(&mut sum, 10);
    assert_eq!(sum, 122);
}

#[test]
fn compute_wraps_at_the_boundary() {
    // max * max + max wraps to 0, so the sum is unchanged.
    let mut sum: usize = 5;
    compute(&mut sum, usize::MAX);
    assert_eq!(sum, 5);
}

#[test]
fn compute_range_exact_small_sum() {
    // Sum of i*i + i for i in 0..5: 0 + 2 + 6 + 12 + 20.
    assert_eq!(compute_range(0, 5), 40);
    assert_eq!(compute_range(5, 5), 0);
    assert_eq!(compute_range(7, 5), 0);
}

#[test]
fn compute_range_matches_element_folding() {
    let mut by_hand: u128 = 0;
    for i in 10u128..20 {
        by_hand = by_hand.wrapping_add(i.wrapping_mul(i).wrapping_add(i));
    }
    assert_eq!(compute_range(10, 20), by_hand);
}

#[test]
fn chunk_bounds_even_split() {
    assert_eq!(chunk_bounds(0, 4, 1000), (0, 250));
    assert_eq!(chunk_bounds(1, 4, 1000), (250, 500));
    assert_eq!(chunk_bounds(2, 4, 1000), (500, 750));
    assert_eq!(chunk_bounds(3, 4, 1000), (750, 1000));
}

#[test]
fn chunk_bounds_last_takes_remainder() {
    assert_eq!(chunk_bounds(0, 3, 10), (0, 3));
    assert_eq!(chunk_bounds(1, 3, 10), (3, 6));
    assert_eq!(chunk_bounds(2, 3, 10), (6, 10));
}

#[test]
fn vendor_prefers_usable_probe() {
    assert_eq!(
        select_vendor(Some("GenuineIntel".to_string()), Some("fallback".to_string())),
        "GenuineIntel"
    );
}

#[test]
fn vendor_falls_back_on_placeholder_or_empty() {
    assert_eq!(
        select_vendor(Some("Unknown Vendor".to_string()), Some("arm-ltd".to_string())),
        "arm-ltd"
    );
    assert_eq!(
        select_vendor(Some("".to_string()), Some("arm-ltd".to_string())),
        "arm-ltd"
    );
    assert_eq!(select_vendor(None, None), "Unknown Vendor");
    assert_eq!(select_vendor(Some("".to_string()), None), "Unknown Vendor");
}

#[test]
fn brand_prefers_nonempty_probe() {
    assert_eq!(
        select_brand(Some("Xeon".to_string()), Some("other".to_string())),
        Some("Xeon".to_string())
    );
    assert_eq!(
        select_brand(Some("".to_string()), Some("other".to_string())),
        Some("other".to_string())
    );
    assert_eq!(select_brand(None, None), None);
}

#[test]
fn frequency_prefers_positive_probe() {
    assert_eq!(select_frequency(Some(2400), Some(1800)), Some(2400));
    assert_eq!(select_frequency(Some(0), Some(1800)), Some(1800));
    assert_eq!(select_frequency(None, Some(1800)), Some(1800));
    assert_eq!(select_frequency(Some(0), None), None);
}

#[test]
fn cpu_count_zero_means_fallback() {
    assert_eq!(select_cpu_count(0, 8), 8);
    assert_eq!(select_cpu_count(12, 8), 12);
}

#[test]
fn max_frequency_converts_khz_to_mhz() {
    assert_eq!(max_frequency_mhz(&vec![1_200_000, 3_400_000, 800_000]), Some(3400));
    assert_eq!(max_frequency_mhz(&vec![999]), Some(0));
    assert_eq!(max_frequency_mhz(&vec![0, 0]), None);
    assert_eq!(max_frequency_mhz(&vec![]), None);
}

#[test]
fn response_summary_cases() {
    let (label, color, content) =
        response_summary(true, Some("Webhook enviado correctamente".to_string()), None);
    assert_eq!(label, "Message");
    assert_eq!(color, "32");
    assert_eq!(content, "Webhook enviado correctamente");

    let (label, color, content) = response_summary(true, None, None);
    assert_eq!((label.as_str(), color.as_str(), content.as_str()), ("Message", "32", "Success"));

    let (label, color, content) = response_summary(false, None, Some("boom".to_string()));
    assert_eq!((label.as_str(), color.as_str(), content.as_str()), ("Error", "31", "boom"));

    let (label, color, content) = response_summary(false, Some("ignored".to_string()), None);
    assert_eq!(
        (label.as_str(), color.as_str(), content.as_str()),
        ("Error", "31", "Unknown error")
    );
}

#[test]
fn parse_yes_no_cases() {
    assert_eq!(parse_yes_no("y"), Some(true));
    assert_eq!(parse_yes_no("n"), Some(false));
    assert_eq!(parse_yes_no(""), None);
    assert_eq!(parse_yes_no("yes"), None);
    assert_eq!(parse_yes_no("Y"), None);
}
