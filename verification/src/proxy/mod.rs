//! The proxies: JSON-RPC, WebSocket, Yellowstone gRPC and aRPC.

pub mod backoff;
pub mod forwarder;
pub mod gate;
pub mod geyser;
pub mod grpc_arpc;
pub mod grpc_filter;
pub mod grpc_mux;
pub mod grpc_yellowstone;
pub mod http_rpc;
pub mod status;
pub mod subscribe_supervisor;
pub mod tcp_listener;
pub mod websocket;
