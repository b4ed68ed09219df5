use parking_lot::RwLock;
use reedos_address_space::DataSource;
use reedos_address_space::DsError;

/// A proxy data source for testing: a fixed-capacity in-memory buffer
/// behind its own lock, as the trait's concurrency contract asks.
struct ProxyDs {
    buffer: RwLock<Vec<u8>>,
}

impl ProxyDs {
    fn new(capacity: usize) -> Self {
        Self {
            buffer: RwLock::new(vec![0; capacity]),
        }
    }

    fn assert_eq(&self, other: &[u8]) {
        assert_eq!(self.buffer.read().as_slice(), other);
    }
}

impl DataSource for ProxyDs {
    fn read(&self, offset: usize, length: usize, buffer: &mut Vec<u8>) -> Result<(), DsError> {
        let data = self.buffer.read();
        if offset + length > data.len() {
            return Err("read past the end of the source");
        }
        buffer.clear();
        buffer.extend_from_slice(&data[offset..offset + length]);
        Ok(())
    }

    fn write(&self, offset: usize, length: usize, buffer: &[u8]) -> Result<(), DsError> {
        let mut data = self.buffer.write();
        if offset + length > data.len() {
            return Err("write past the end of the source");
        }
        data[offset..offset + length].copy_from_slice(&buffer[..length]);
        Ok(())
    }

    fn flush(&self, offset: usize, length: usize) -> Result<(), DsError> {
        let mut data = self.buffer.write();
        if offset + length > data.len() {
            return Err("flush past the end of the source");
        }
        data[offset..offset + length].fill(0);
        Ok(())
    }
}

#[test]
fn proxy_ds_works() -> Result<(), DsError> {
    const TEST_DS_CAPACITY: usize = 32;

    let ds = ProxyDs::new(TEST_DS_CAPACITY);

    // write all 1s
    ds.write(0, 32, &[1; 32])?;
    ds.assert_eq(&[1; 32]);

    // read 15 bytes from the middle
    let mut buffer = Vec::new();
    ds.read(10, 15, &mut buffer)?;
    assert_eq!(buffer, [1; 15]);

    // write from 0 to 31
    let mut write_from = [0u8; 32];
    for i in 0..32 {
        write_from[i as usize] = i;
    }
    ds.write(0, 32, &write_from)?;
    ds.assert_eq(&write_from);

    // read 12 bytes from the middle
    let mut read_into = Vec::new();
    ds.read(13, 12, &mut read_into)?;
    assert_eq!(read_into, write_from[13..25]);

    Ok(())
}

#[test]
fn proxy_ds_flush_zeroes_a_range() -> Result<(), DsError> {
    let ds = ProxyDs::new(8);

    ds.write(0, 8, &[9; 8])?;
    ds.flush(2, 4)?;
    ds.assert_eq(&[9, 9, 0, 0, 0, 0, 9, 9]);

    Ok(())
}
