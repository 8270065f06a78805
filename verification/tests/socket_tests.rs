use kya::errors::Error;
use kya::socket::{accept_error, bind_address, bind_error, read_error, SocketError};

#[test]
fn bind_address_maps_localhost_to_the_loopback() {
    assert_eq!(bind_address("localhost", 8080), "127.0.0.1:8080");
    assert_eq!(bind_address("0.0.0.0", 80), "0.0.0.0:80");
    assert_eq!(bind_address("Localhost", 1), "Localhost:1");
}

#[test]
fn socket_errors_are_reported_as_socket_errors() {
    let e = SocketError::BindError("address in use".to_string());
    assert_eq!(
        bind_error("localhost", 9000, &e),
        Error::RuntimeError("Failed to bind socket to localhost:9000. Error: Socket Error".to_string())
    );
    assert_eq!(
        accept_error(&SocketError::AcceptError("Listener is not initialized".to_string())),
        Error::RuntimeError("Failed to accept connection. Error: Socket Error".to_string())
    );
    assert_eq!(
        read_error(&SocketError::ReadError("reset".to_string())),
        Error::RuntimeError("Failed to read from connection: Socket Error".to_string())
    );
}
