use nrf24l01::{DataRate, PALevel, RXConfig, TXConfig};

#[test]
fn rx_defaults() {
    let rx_conf = RXConfig::default();
    assert_eq!(rx_conf.data_rate, DataRate::R1Mbps);
    assert_eq!(rx_conf.channel, 0);
    assert_eq!(rx_conf.pa_level, PALevel::Min);
    assert_eq!(rx_conf.pipe0_address, [0u8; 5]);
    assert_eq!(rx_conf.pipe1_address, None);
}

#[test]
fn rx_partial_defaults() {
    let mut rx_conf = RXConfig {
        channel: 108,
        data_rate: DataRate::R250Kbps,
        pa_level: PALevel::Low,
        pipe0_address: *b"rxadd",
        ..Default::default()
    };
    rx_conf.pipe0_address.reverse();
    assert_eq!(rx_conf.channel, 108);
    assert_eq!(rx_conf.pipe1_address, None);
}

#[test]
fn tx_defaults() {
    let tx_conf = TXConfig::default();
    assert_eq!(tx_conf.data_rate, DataRate::R1Mbps);
    assert_eq!(tx_conf.channel, 0);
    assert_eq!(tx_conf.pa_level, PALevel::Min);
    assert_eq!(tx_conf.max_retries, 0);
    assert_eq!(tx_conf.retry_delay, 0);
    assert_eq!(tx_conf.pipe0_address, [0u8; 5]);
}
