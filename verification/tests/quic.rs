use smb_server::quic::{
    DEFAULT_QUIC_CONNECTION_RECEIVE_WINDOW, DEFAULT_QUIC_STREAM_RECEIVE_WINDOW, SMB_QUIC_ALPN,
    SmbQuicConfig, SmbQuicConfigError, Span, smb_quic_next_protos,
    smb_quic_transport_config,
};

#[test]
fn smb_quic_transport_config_applies_smb_defaults() {
    let transport =
        smb_quic_transport_config(SmbQuicConfig::default()).expect("transport config");
    let debug = format!("{transport:?}");

    assert!(debug.contains("max_concurrent_bidi_streams: 1"));
    assert!(debug.contains("max_concurrent_uni_streams: 0"));
    assert!(debug.contains("max_idle_timeout: Some(180000)"));
    assert!(debug.contains("keep_alive_interval: Some(15s)"));
    assert!(debug.contains(&format!(
        "stream_receive_window: {}",
        DEFAULT_QUIC_STREAM_RECEIVE_WINDOW
    )));
    assert!(debug.contains(&format!(
        "receive_window: {}",
        DEFAULT_QUIC_CONNECTION_RECEIVE_WINDOW
    )));
}

#[test]
fn smb_quic_transport_config_preserves_explicit_timeouts_and_windows() {
    let config = SmbQuicConfig {
        max_idle_timeout: Span::from_secs(4),
        keep_alive_interval: Span::from_secs(1),
        stream_receive_window: 1024,
        connection_receive_window: 2048,
    };
    let transport = smb_quic_transport_config(config).expect("transport config");
    let debug = format!("{transport:?}");

    assert!(debug.contains("max_concurrent_bidi_streams: 1"));
    assert!(debug.contains("max_concurrent_uni_streams: 0"));
    assert!(debug.contains("max_idle_timeout: Some(4000)"));
    assert!(debug.contains("keep_alive_interval: Some(1s)"));
    assert!(debug.contains("stream_receive_window: 1024"));
    assert!(debug.contains("receive_window: 2048"));
}

#[test]
fn smb_quic_config_rejects_zero_receive_windows() {
    let config = SmbQuicConfig {
        stream_receive_window: 0,
        ..SmbQuicConfig::default()
    };
    assert!(matches!(
        smb_quic_transport_config(config),
        Err(SmbQuicConfigError::ZeroStreamReceiveWindow)
    ));

    let config = SmbQuicConfig {
        connection_receive_window: 0,
        ..SmbQuicConfig::default()
    };
    assert!(matches!(
        smb_quic_transport_config(config),
        Err(SmbQuicConfigError::ZeroConnectionReceiveWindow)
    ));
}

#[test]
fn smb_quic_alpn_is_first_and_deduplicated() {
    assert_eq!(
        smb_quic_next_protos(&[b"h3".to_vec(), SMB_QUIC_ALPN.to_vec()]),
        vec![SMB_QUIC_ALPN.to_vec(), b"h3".to_vec()]
    );
}
