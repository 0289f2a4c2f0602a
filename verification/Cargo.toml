[package]
name = "qwencraft"
version = "0.1.0"
edition = "2021"
publish = false

[dependencies]
getrandom = "0.3"
tokio = { version = "1", features = ["full"] }
tokio-tungstenite = "0.28"
futures-util = "0.3"
tokio-rustls = { version = "0.26", default-features = false, features = ["ring", "tls12", "logging"] }
rustls = { version = "0.23", default-features = false, features = ["ring", "tls12", "logging", "std"] }
rustls-pemfile = "2"
wgpu = { version = "27", default-features = false, features = ["std", "wgsl", "webgpu"] }
wasm-bindgen = "0.2"
wasm-bindgen-futures = "0.4"
js-sys = "0.3"
web-sys = { version = "0.3", features = ["console", "BinaryType", "CssStyleDeclaration", "Document", "DomRect", "DomTokenList", "Element", "Event", "EventTarget", "HtmlCanvasElement", "HtmlCollection", "HtmlDivElement", "HtmlElement", "HtmlInputElement", "KeyboardEvent", "Location", "MediaQueryList", "MessageEvent", "MouseEvent", "Navigator", "Node", "ServiceWorkerContainer", "ServiceWorkerRegistration", "Storage", "Touch", "TouchEvent", "TouchList", "UiEvent", "WebGl2RenderingContext", "WebGlBuffer", "WebGlProgram", "WebGlShader", "WebGlUniformLocation", "WebSocket", "WheelEvent", "Window"] }

[dev-dependencies]
naga = { version = "27", features = ["wgsl-in"] }
