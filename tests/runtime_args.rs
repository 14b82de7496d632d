use dmrlet::model::Worker;
use dmrlet::runtime::{ProcessRuntime, ProcessRuntimeConfig};

#[test]
fn test_process_runtime_config_default() {
    let config = ProcessRuntimeConfig::default();
    assert_eq!(config.llama_server_path, "llama-server");
}

#[test]
fn test_build_command() {
    let config = ProcessRuntimeConfig {
        llama_server_path: "/usr/bin/llama-server".to_string(),
        extra_args: vec!["--ctx-size".to_string(), "4096".to_string()],
    };
    let runtime = ProcessRuntime::new(config);

    let deployment_id = uuid::Uuid::new_v4().as_u128();
    let worker = Worker::new(deployment_id, 0, 30000);

    let args = runtime.build_args(&worker, "/path/to/model.gguf");
    assert_eq!(
        args,
        vec![
            "--model",
            "/path/to/model.gguf",
            "--host",
            "127.0.0.1",
            "--port",
            "30000",
            "--ctx-size",
            "4096"
        ]
    );
    assert_eq!(runtime.server_path(), "/usr/bin/llama-server");
    assert!(runtime.visible_devices(&worker).is_none());
    assert_eq!(runtime.name(), "process");
}

#[test]
fn gpu_worker_arguments_and_devices() {
    let runtime = ProcessRuntime::new(ProcessRuntimeConfig::default());
    let mut worker = Worker::new(1, 0, 30001);
    worker.gpu_ids = vec![2, 10, 3];
    let args = runtime.build_args(&worker, "m.gguf");
    assert_eq!(
        args,
        vec!["--model", "m.gguf", "--host", "127.0.0.1", "--port", "30001", "--n-gpu-layers", "999"]
    );
    assert_eq!(runtime.visible_devices(&worker), Some("2,10,3".to_string()));
}
