use incremental_esdf::voxel::{Esdf, EsdfFlags, SiteIndex};
use incremental_esdf::wire::{
    decode_block_infos, decode_voxel, decode_voxels, encode_block_info_into, encode_voxel_into,
    encode_voxels, BlockInfo, BLOCK_INFO_BYTES, VOXEL_BYTES,
};

fn voxel(distance: i32, bits: u32, x: i32, y: i32, z: i32) -> Esdf {
    Esdf { distance, flags: EsdfFlags { bits }, site_block_index: SiteIndex { x, y, z } }
}

#[test]
fn voxel_takes_32_bytes_low_byte_first() {
    let mut bytes = Vec::new();
    encode_voxel_into(&voxel(0x01020304, 7, -1, 256, i32::MIN), &mut bytes);
    assert_eq!(bytes.len(), VOXEL_BYTES);
    assert_eq!(
        bytes,
        vec![
            0x04, 0x03, 0x02, 0x01, // distance
            7, 0, 0, 0, // flags
            0xff, 0xff, 0xff, 0xff, // site x
            0, 1, 0, 0, // site y
            0, 0, 0, 0x80, // site z
            0, 0, 0, 0, 0, 0, 0, 0, 0, 0, 0, 0, // padding
        ]
    );
    assert_eq!(decode_voxel(&bytes, 0), Some(voxel(0x01020304, 7, -1, 256, i32::MIN)));
    let negative = voxel(-2, 0x3ff, 0, 0, 0);
    let mut more = Vec::new();
    encode_voxel_into(&negative, &mut more);
    assert_eq!(&more[..4], &(-2i32).to_le_bytes());
    assert_eq!(&more[4..8], &0x3ffu32.to_le_bytes());
}

#[test]
fn voxels_round_trip() {
    let voxels = vec![
        voxel(0, 0, 0, 0, 0),
        voxel(i32::MAX, u32::MAX, i32::MAX, i32::MIN, -1),
        voxel(i32::MIN, 2, 1, 2, 3),
        voxel(-123456, 6, -7, 8, -9),
    ];
    let bytes = encode_voxels(&voxels);
    assert_eq!(bytes.len(), 4 * 32);
    assert_eq!(decode_voxels(&bytes), Some(voxels.clone()));
    assert_eq!(decode_voxel(&bytes, 64), Some(voxels[2]));
    assert_eq!(encode_voxels(&[]), Vec::<u8>::new());
    assert_eq!(decode_voxels(&[]), Some(vec![]));
}

#[test]
fn malformed_voxel_bytes_are_refused() {
    let bytes = encode_voxels(&[voxel(1, 2, 3, 4, 5), voxel(6, 7, 8, 9, 10)]);
    assert_eq!(decode_voxels(&bytes[..63]), None);
    assert_eq!(decode_voxels(&bytes[..33]), None);
    assert!(decode_voxels(&bytes[..32]).is_some());
    let mut dirty_padding = bytes.clone();
    dirty_padding[32 + 20] = 1;
    assert_eq!(decode_voxels(&dirty_padding), None);
    assert!(decode_voxel(&dirty_padding, 0).is_some());
    assert_eq!(decode_voxel(&dirty_padding, 32), None);
    let mut last_padding = bytes.clone();
    last_padding[63] = 0xff;
    assert_eq!(decode_voxels(&last_padding), None);
    assert_eq!(decode_voxel(&bytes, 33), None);
    assert_eq!(decode_voxel(&bytes, usize::MAX), None);
    assert_eq!(decode_voxel(&bytes[..31], 0), None);
}

#[test]
fn block_states_take_8_bytes() {
    let infos = vec![
        BlockInfo { flags: EsdfFlags { bits: 8 }, updated_voxels: 3 },
        BlockInfo::default(),
        BlockInfo { flags: EsdfFlags { bits: 0x0102_0304 }, updated_voxels: u32::MAX },
    ];
    let mut bytes = Vec::new();
    for info in &infos {
        encode_block_info_into(info, &mut bytes);
    }
    assert_eq!(bytes.len(), 3 * BLOCK_INFO_BYTES);
    assert_eq!(&bytes[..8], &[8, 0, 0, 0, 3, 0, 0, 0]);
    assert_eq!(&bytes[8..16], &[0; 8]);
    assert_eq!(&bytes[16..], &[4, 3, 2, 1, 0xff, 0xff, 0xff, 0xff]);
    assert_eq!(decode_block_infos(&bytes), Some(infos));
    assert_eq!(decode_block_infos(&bytes[..15]), None);
    assert_eq!(decode_block_infos(&[]), Some(vec![]));
    assert_eq!(BlockInfo::default(), BlockInfo { flags: EsdfFlags { bits: 0 }, updated_voxels: 0 });
}
