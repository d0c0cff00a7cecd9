pub mod boxes;
pub mod catalog;
pub mod cli;
pub mod client;
pub mod control;
pub mod event_log;
pub mod fetch_handler;
pub mod forwarding;
pub mod json;
pub mod location;
pub mod message;
pub mod mp4_processor;
pub mod names;
pub mod outside;
pub mod pairs;
pub mod priority;
pub mod publisher;
pub mod session;
pub mod session_context;
pub mod stats;
pub mod stream_id;
pub mod subscribe_handler;
pub mod subscriber;
pub mod subscription;
pub mod subscription_manager;
pub mod switch_context;
pub mod switcher;
pub mod table;
pub mod text;
pub mod timeline;
pub mod timeline_producer;
pub mod track;
pub mod track_manager;
