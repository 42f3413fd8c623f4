[package]
name = "drawbridge"
version = "0.1.0"
edition = "2021"
publish = false

[dependencies]
ipnet = "2"
clap = "2"
failure = "0.1"
futures = "0.1"
hyper = "0.11"
openssl-probe = "0.1"
rusoto_core = "0.42"
rusoto_ec2 = "0.42"
rusoto_route53 = "0.42"
tokio-core = "0.1"
