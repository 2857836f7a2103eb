use stegstr::bits::bytes_to_bits;
use stegstr::carrier::{
    block_origin,
    ba_qim_block_bits, embed_lsb, extract_any, extract_ba_qim, extract_lsb, frame_from_bits,
    CapacityError, DetectError, ExtractError,
};
use stegstr::message::{open_message, seal_message};

fn coded(packet: &[u8], r: usize) -> Vec<bool> {
    let mut out = Vec::new();
    for b in bytes_to_bits(packet) {
        for _ in 0..r {
            out.push(b);
        }
    }
    out
}

#[test]
fn block_plan_repeats_bits() {
    let plan = ba_qim_block_bits(&[0x80], 3, 1000);
    assert_eq!(plan.len(), 24);
    assert_eq!(&plan[..4], &[true, true, true, false]);
    assert!(plan[3..].iter().all(|b| !*b));
    let cut = ba_qim_block_bits(&[0xff, 0xff], 4, 10);
    assert_eq!(cut, vec![true; 10]);
    assert_eq!(ba_qim_block_bits(&[], 15, 10), Vec::<bool>::new());
    assert_eq!(ba_qim_block_bits(&[0xff], 0, 10), Vec::<bool>::new());
}

#[test]
fn ba_qim_roundtrip_with_noise_and_tail() {
    let packet = seal_message(b"robust", false).unwrap();
    for r in [15usize, 8, 4] {
        let mut blocks = ba_qim_block_bits(&packet, r, usize::MAX);
        assert_eq!(blocks, coded(&packet, r));
        // One flipped block in every run still votes the right way.
        let mut i = 0;
        while i < blocks.len() {
            blocks[i] = !blocks[i];
            i += r;
        }
        blocks.extend(std::iter::repeat(true).take(500));
        assert_eq!(extract_ba_qim(&blocks, r).unwrap(), packet);
    }
}

#[test]
fn ba_qim_errors() {
    assert_eq!(extract_ba_qim(&vec![false; 127], 1), Err(ExtractError::ImageTooSmall));
    assert_eq!(extract_ba_qim(&vec![false; 15 * 128 - 1], 15), Err(ExtractError::ImageTooSmall));
    assert_eq!(extract_ba_qim(&vec![false; 128], 1), Err(ExtractError::BadMagic));
    let packet = seal_message(b"a longer body than fits", false).unwrap();
    let blocks = coded(&packet[..16], 1);
    assert_eq!(extract_ba_qim(&blocks, 1), Err(ExtractError::Truncated));
}

#[test]
fn frame_errors() {
    assert_eq!(frame_from_bits(&[true; 95]), Err(ExtractError::NotEnoughBits));
    assert_eq!(frame_from_bits(&[false; 96]), Err(ExtractError::BadMagic));
}

#[test]
fn lsb_roundtrip_and_capacity() {
    let packet = seal_message(b"lossless", true).unwrap();
    let rgb: Vec<u8> = (0..(packet.len() * 8 + 7)).map(|i| (i * 37 % 256) as u8).collect();
    let stego = embed_lsb(&rgb, &packet).unwrap();
    assert_eq!(stego.len(), rgb.len());
    for i in 0..rgb.len() {
        assert_eq!(stego[i] & 0xFE, rgb[i] & 0xFE);
    }
    assert_eq!(&stego[packet.len() * 8..], &rgb[packet.len() * 8..]);
    assert_eq!(extract_lsb(&stego).unwrap(), packet);
    assert_eq!(
        embed_lsb(&rgb[..packet.len() * 8 - 1], &packet),
        Err(CapacityError::TooLargeForLossless)
    );
    assert_eq!(extract_lsb(&[1u8; 10]), Err(ExtractError::NotEnoughBits));
}

#[test]
fn extract_any_prefers_robust_then_lossless() {
    let packet = seal_message(b"first", false).unwrap();
    let blocks = coded(&packet, 15);
    assert_eq!(extract_any(&blocks, &[]).unwrap(), packet);
    let armor = coded(&packet, 4);
    assert_eq!(extract_any(&armor, &[]).unwrap(), packet);
    let other = seal_message(b"second", false).unwrap();
    let stego = embed_lsb(&vec![0u8; other.len() * 8], &other).unwrap();
    assert_eq!(extract_any(&[false; 10], &stego).unwrap(), other);
    assert_eq!(open_message(&extract_any(&[false; 10], &stego).unwrap(), false).unwrap(), b"second".to_vec());
    assert_eq!(extract_any(&[false; 3000], &[0u8; 300]), Err(DetectError::NoPayload));
}

#[test]
fn block_origins_row_major() {
    assert_eq!(block_origin(0, 24, 16), (0, 0));
    assert_eq!(block_origin(2, 24, 16), (16, 0));
    assert_eq!(block_origin(3, 24, 16), (0, 8));
    assert_eq!(block_origin(5, 31, 17), (16, 8));
}
