[package]
name = "dynamaze"
version = "0.1.0"
edition = "2021"
publish = false

[dependencies]
rand = "0.7"
serde = { version = "1", features = ["derive"] }
bincode = "1"
toml = "0.5"
lazy_static = "1"
wasm-bindgen = "0.2"
js-sys = "0.3"
gloo = "0.2"
console_error_panic_hook = "0.1"
actix = "0.10"
actix-rt = "1"
actix-web = "3"
actix-web-actors = "3"
web-sys = { version = "0.3", features = ["Window", "Document", "Element", "HtmlElement", "HtmlCanvasElement", "CanvasRenderingContext2d", "MouseEvent", "KeyboardEvent", "Event", "EventTarget", "Node", "HtmlInputElement", "HtmlFormElement", "HtmlCollection", "DomStringMap", "CssStyleDeclaration", "WebSocket", "BinaryType", "MessageEvent", "Location", "Storage", "AudioContext", "BaseAudioContext", "GainNode", "AudioParam", "AudioNode", "AudioDestinationNode", "HtmlAudioElement", "HtmlMediaElement", "MediaElementAudioSourceNode", "console", "Text", "DomRect"] }
