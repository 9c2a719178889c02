use eddi::ProcessConfig;

#[test]
fn test_gunicorn_config() {
    let config = ProcessConfig::gunicorn("/tmp/test.sock".to_string(), "/app".to_string(), "app:app", 2);
    assert_eq!(config.command, "gunicorn");
    assert_eq!(config.socket_path, "/tmp/test.sock");
    assert!(config.args.contains(&"--workers".to_string()));
    assert!(config.args.contains(&"2".to_string()));
}

#[test]
fn gunicorn_arguments_exact() {
    let config = ProcessConfig::gunicorn("/tmp/x.sock".to_string(), "/app".to_string(), "m:a", 255);
    assert_eq!(config.args, vec!["--workers", "255", "--bind", "unix:/tmp/x.sock", "m:a"]);
}

#[test]
fn test_process_config_gunicorn_creation() {
    let socket_path = "/var/run/app.sock".to_string();
    let app_dir = "/opt/myapp".to_string();
    let config = ProcessConfig::gunicorn(socket_path.clone(), app_dir.clone(), "myapp:application", 4);
    assert_eq!(config.command, "gunicorn");
    assert_eq!(config.socket_path, socket_path);
    assert_eq!(config.app_dir, app_dir);
    assert!(config.args.contains(&"--workers".to_string()));
    assert!(config.args.contains(&"4".to_string()));
    assert!(config.args.contains(&"--bind".to_string()));
    assert!(config.args.iter().any(|arg| arg.starts_with("unix:")));
    assert!(config.args.contains(&"myapp:application".to_string()));
}

#[test]
fn test_process_config_gunicorn_socket_path_in_args() {
    let config = ProcessConfig::gunicorn("/tmp/test.sock".to_string(), "/app".to_string(), "app:app", 1);
    let bind_arg = config.args.iter().find(|arg| arg.starts_with("unix:")).expect("Should have unix: bind argument");
    assert!(bind_arg.contains("test.sock"));
}

#[test]
fn test_process_config_workers_range() {
    for workers in [1u8, 2, 4, 8, 16] {
        let config = ProcessConfig::gunicorn("/tmp/test.sock".to_string(), "/app".to_string(), "app:app", workers);
        assert!(config.args.contains(&workers.to_string()));
    }
}

#[test]
fn test_process_config_custom() {
    let socket_path = "/tmp/custom.sock".to_string();
    let config = ProcessConfig {
        socket_path: socket_path.clone(),
        app_dir: "/custom/app".to_string(),
        command: "uvicorn".to_string(),
        args: vec!["main:app".to_string(), "--uds".to_string(), socket_path.clone()],
    };
    assert_eq!(config.command, "uvicorn");
    assert_eq!(config.socket_path, socket_path);
    assert!(config.args.contains(&"main:app".to_string()));
    assert!(config.args.contains(&"--uds".to_string()));
}

#[test]
fn test_process_config_clone() {
    let config = ProcessConfig::gunicorn("/tmp/test.sock".to_string(), "/app".to_string(), "app:app", 2);
    let cloned = config.clone();
    assert_eq!(config.socket_path, cloned.socket_path);
    assert_eq!(config.app_dir, cloned.app_dir);
    assert_eq!(config.command, cloned.command);
    assert_eq!(config.args, cloned.args);
}

#[test]
fn test_process_config_debug() {
    let config = ProcessConfig::gunicorn("/tmp/test.sock".to_string(), "/app".to_string(), "app:app", 2);
    let debug_str = format!("{:?}", config);
    assert!(debug_str.contains("ProcessConfig"));
    assert!(debug_str.contains("socket_path"));
    assert!(debug_str.contains("gunicorn"));
}

#[test]
fn test_process_config_invariants() {
    let configs = vec![
        ProcessConfig::gunicorn("/tmp/a.sock".to_string(), "/app1".to_string(), "app:app", 1),
        ProcessConfig::gunicorn("/tmp/b.sock".to_string(), "/app2".to_string(), "main:application", 8),
    ];
    for config in configs {
        assert!(!config.socket_path.is_empty());
        assert!(!config.command.is_empty());
        assert!(config.args.iter().any(|arg| arg.contains("unix:")));
        let workers: Vec<u8> = config.args.iter().filter_map(|arg| arg.parse().ok()).collect();
        assert!(!workers.is_empty(), "Should have numeric worker count");
        assert!(workers.iter().all(|&w| w > 0 && w <= 16), "Workers should be reasonable");
    }
}

#[test]
fn test_mock_process_config_handles_special_chars() {
    let socket_path = "/tmp/socket with spaces.sock".to_string();
    let config = ProcessConfig::gunicorn(socket_path.clone(), "/app".to_string(), "app:app", 1);
    assert_eq!(config.socket_path, socket_path);
    let bind_arg = config.args.iter().find(|arg| arg.starts_with("unix:")).unwrap();
    assert!(bind_arg.contains("spaces"));
}

#[test]
fn test_no_panics_on_normal_usage() {
    let socket_path = "/tmp/test.sock".to_string();
    let config = ProcessConfig::gunicorn(socket_path.clone(), "/app".to_string(), "app:app", 4);
    assert!(config.socket_path == socket_path);
    let _cloned = config.clone();
    let _debug = format!("{:?}", config);
}
