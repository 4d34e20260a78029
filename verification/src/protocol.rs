use vstd::prelude::*;

verus! {

/// Which display layer a stream writes to: the main buffered layer, or a
/// secondary overlay layer.
#[allow(non_camel_case_types)]
pub enum DMDLayer {
    MAIN,
    SECOND,
}

/// Build the fixed 25-byte stream header: the keyword "DMDStream" and a
/// zero byte, the protocol version, the color mode (3, RGB565), the
/// big-endian display width and height, the buffering and
/// disconnect-others flags (set only for the main layer), and the
/// big-endian payload byte count.
pub fn get_header(width: u16, height: u16, layer: DMDLayer, nbytes: u32) -> (r: Vec<u8>)
    ensures
        r@.len() == 25,
        r@[0] == 68u8 && r@[1] == 77u8 && r@[2] == 68u8 && r@[3] == 83u8 && r@[4] == 116u8
            && r@[5] == 114u8 && r@[6] == 101u8 && r@[7] == 97u8 && r@[8] == 109u8,
        r@[9] == 0u8,
        r@[10] == 1u8,
        r@[11] == 0u8 && r@[12] == 0u8 && r@[13] == 0u8 && r@[14] == 3u8,
        r@[15] == (width >> 8) as u8 && r@[16] == (width & 0xff) as u8,
        r@[17] == (height >> 8) as u8 && r@[18] == (height & 0xff) as u8,
        r@[19] == (if layer is MAIN { 1u8 } else { 0u8 }),
        r@[20] == (if layer is MAIN { 1u8 } else { 0u8 }),
        r@[21] == (nbytes >> 24) as u8 && r@[22] == (nbytes >> 16) as u8 && r@[23] == (nbytes
            >> 8) as u8 && r@[24] == (nbytes & 0xff) as u8,
{
    let buffered: u8;
    let disconnect_others: u8;
    if matches!(layer, DMDLayer::MAIN) {
        buffered = 1;
        disconnect_others = 1;
    } else {
        buffered = 0;
        disconnect_others = 0;
    }
    let mut bytes: Vec<u8> = Vec::new();
    bytes.push(68);
    bytes.push(77);
    bytes.push(68);
    bytes.push(83);
    bytes.push(116);
    bytes.push(114);
    bytes.push(101);
    bytes.push(97);
    bytes.push(109);
    bytes.push(0);
    bytes.push(1);
    bytes.push(0);
    bytes.push(0);
    bytes.push(0);
    bytes.push(3);
    bytes.push((width >> 8) as u8);
    bytes.push((width & 0xff) as u8);
    bytes.push((height >> 8) as u8);
    bytes.push((height & 0xff) as u8);
    bytes.push(buffered);
    bytes.push(disconnect_others);
    bytes.push((nbytes >> 24) as u8);
    bytes.push((nbytes >> 16) as u8);
    bytes.push((nbytes >> 8) as u8);
    bytes.push((nbytes & 0xff) as u8);
    bytes
}

} // verus!

