[package]
name = "wasm_portfolio"
version = "0.1.0"
edition = "2021"
publish = false

[dependencies]
wasm-bindgen = "0.2"
js-sys = "0.3"

[dependencies.web-sys]
version = "0.3"
features = ["Window", "Document", "Element", "HtmlCanvasElement", "CanvasRenderingContext2d", "ImageData", "Storage", "AudioContext", "AudioContextState", "BaseAudioContext", "AudioNode", "AudioParam", "AudioDestinationNode", "AudioScheduledSourceNode", "OscillatorNode", "OscillatorType", "GainNode", "AudioBuffer", "AudioBufferSourceNode", "BiquadFilterNode", "BiquadFilterType"]
