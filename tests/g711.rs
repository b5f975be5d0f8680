use ulaw_vad::g711::{decode, MAX_DECODED};

/// The G.711 µ-law expansion table, indexed by code.
const REFERENCE: [i16; 256] = [
    -32124, -31100, -30076, -29052, -28028, -27004, -25980, -24956,
    -23932, -22908, -21884, -20860, -19836, -18812, -17788, -16764,
    -15996, -15484, -14972, -14460, -13948, -13436, -12924, -12412,
    -11900, -11388, -10876, -10364, -9852, -9340, -8828, -8316,
    -7932, -7676, -7420, -7164, -6908, -6652, -6396, -6140,
    -5884, -5628, -5372, -5116, -4860, -4604, -4348, -4092,
    -3900, -3772, -3644, -3516, -3388, -3260, -3132, -3004,
    -2876, -2748, -2620, -2492, -2364, -2236, -2108, -1980,
    -1884, -1820, -1756, -1692, -1628, -1564, -1500, -1436,
    -1372, -1308, -1244, -1180, -1116, -1052, -988, -924,
    -876, -844, -812, -780, -748, -716, -684, -652,
    -620, -588, -556, -524, -492, -460, -428, -396,
    -372, -356, -340, -324, -308, -292, -276, -260,
    -244, -228, -212, -196, -180, -164, -148, -132,
    -120, -112, -104, -96, -88, -80, -72, -64,
    -56, -48, -40, -32, -24, -16, -8, 0,
    32124, 31100, 30076, 29052, 28028, 27004, 25980, 24956,
    23932, 22908, 21884, 20860, 19836, 18812, 17788, 16764,
    15996, 15484, 14972, 14460, 13948, 13436, 12924, 12412,
    11900, 11388, 10876, 10364, 9852, 9340, 8828, 8316,
    7932, 7676, 7420, 7164, 6908, 6652, 6396, 6140,
    5884, 5628, 5372, 5116, 4860, 4604, 4348, 4092,
    3900, 3772, 3644, 3516, 3388, 3260, 3132, 3004,
    2876, 2748, 2620, 2492, 2364, 2236, 2108, 1980,
    1884, 1820, 1756, 1692, 1628, 1564, 1500, 1436,
    1372, 1308, 1244, 1180, 1116, 1052, 988, 924,
    876, 844, 812, 780, 748, 716, 684, 652,
    620, 588, 556, 524, 492, 460, 428, 396,
    372, 356, 340, 324, 308, 292, 276, 260,
    244, 228, 212, 196, 180, 164, 148, 132,
    120, 112, 104, 96, 88, 80, 72, 64,
    56, 48, 40, 32, 24, 16, 8, 0,
];

#[test]
fn decode_matches_reference_table() {
    let codes: Vec<u8> = (0..=255u8).collect();
    let samples = decode(codes);
    assert_eq!(samples.len(), 256);
    for (code, sample) in samples.iter().enumerate() {
        assert_eq!(*sample, REFERENCE[code], "code {:#04x}", code);
    }
}

#[test]
fn decode_keeps_order_and_length() {
    let samples = decode(vec![0xff, 0x00, 0x80, 0x7f, 0x0f]);
    assert_eq!(samples, vec![0, -32124, 32124, 0, -16764]);
}

#[test]
fn decode_empty_is_empty() {
    assert!(decode(Vec::new()).is_empty());
}

#[test]
fn decode_silence_code() {
    assert_eq!(decode(vec![0xff; 5]), vec![0; 5]);
}

#[test]
fn decode_all_zero_bytes_is_full_scale_negative() {
    // 0x00 is the largest negative code, not silence.
    assert_eq!(decode(vec![0u8; 4]), vec![-32124; 4]);
}

#[test]
fn decode_accepts_any_bytes() {
    let noise: Vec<u8> = (0..1000u32).map(|i| (i.wrapping_mul(2654435761) >> 13) as u8).collect();
    let samples = decode(noise.clone());
    assert_eq!(samples.len(), noise.len());
    for (b, s) in noise.iter().zip(samples.iter()) {
        assert_eq!(*s, REFERENCE[*b as usize]);
    }
}

#[test]
fn decoded_samples_stay_within_full_scale() {
    let samples = decode((0..=255u8).collect());
    assert!(samples.iter().all(|s| (-MAX_DECODED..=MAX_DECODED).contains(s)));
    assert!(samples.contains(&MAX_DECODED) && samples.contains(&-MAX_DECODED));
    for s in samples {
        let normalized = s as f32 / 32767.0;
        assert!((-1.0..=1.0).contains(&normalized));
    }
}
