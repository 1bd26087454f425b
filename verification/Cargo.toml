[package]
name = "voicebot"
version = "0.1.0"
edition = "2021"
publish = false

[dependencies]
linked_hash_set = "=0.1.6"
tokio = { version = "1", default-features = false, features = ["macros", "rt-multi-thread", "time", "sync"] }
futures = "0.3"
async-trait = "0.1"
reqwest = { version = "0.12", default-features = false }
songbird = { version = "=0.4.6", default-features = false, features = ["twilight", "driver", "gateway", "rustls"] }
twilight-gateway = { version = "=0.15.4", default-features = false, features = ["twilight-http"] }
twilight-http = { version = "=0.15.4", default-features = false }
twilight-model = "=0.15.4"
twilight-cache-inmemory = "=0.15.4"
twilight-standby = "=0.15.4"
twilight-util = { version = "=0.15.4", features = ["builder"] }
