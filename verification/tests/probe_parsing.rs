use cf_manager::probe::{
    any_mentions_client, lsof_claimant_pids, mentions_client, netstat_candidate_pids,
    port_pattern, resolve_client_path,
};

#[test]
fn port_pattern_is_colon_and_digits() {
    assert_eq!(port_pattern(8080), ":8080");
    assert_eq!(port_pattern(1), ":1");
    assert_eq!(port_pattern(65535), ":65535");
}

#[test]
fn netstat_lines_on_the_port_contribute_their_pid() {
    let out = "Proto  Local Address      Foreign Address    State       PID\n\
               TCP    0.0.0.0:8080       0.0.0.0:0          LISTENING   1234\n\
               TCP    127.0.0.1:9090     0.0.0.0:0          LISTENING   5678\n\
               TCP    10.0.0.1:8080      0.0.0.0:0          TIME_WAIT   4321\n";
    assert_eq!(netstat_candidate_pids(out, 8080), vec![1234, 4321]);
    assert_eq!(netstat_candidate_pids(out, 9090), vec![5678]);
    assert_eq!(netstat_candidate_pids(out, 1), Vec::<u32>::new());
}

#[test]
fn netstat_line_without_numeric_tail_is_skipped() {
    let out = "TCP 0.0.0.0:8080 0.0.0.0:0 LISTENING\nTCP 0.0.0.0:8080 0.0.0.0:0 LISTENING 77\n";
    assert_eq!(netstat_candidate_pids(out, 8080), vec![77]);
}

#[test]
fn netstat_empty_output_gives_no_pids() {
    assert_eq!(netstat_candidate_pids("", 8080), Vec::<u32>::new());
}

#[test]
fn lsof_lines_naming_the_client_contribute_their_pid() {
    let out = "COMMAND     PID USER   FD   TYPE NAME\n\
               cloudflared 4321 root   5u  IPv4 TCP *:8080 (LISTEN)\n\
               nginx       2222 root   6u  IPv4 TCP *:8080 (LISTEN)\n\
               Cloudflared 9876 root   7u  IPv4 TCP *:8080 (LISTEN)\n";
    assert_eq!(lsof_claimant_pids(out), vec![4321, 9876]);
}

#[test]
fn lsof_line_without_pid_column_is_skipped() {
    let out = "cloudflared\ncloudflared abc 1\ncloudflared 55 root\n";
    assert_eq!(lsof_claimant_pids(out), vec![55]);
}

#[test]
fn client_mention_is_case_insensitive_substring() {
    assert!(mentions_client("cloudflared  1234 root"));
    assert!(mentions_client("Image Name: CLOUDFLARED.EXE  PID: 9"));
    assert!(!mentions_client("cloud flared"));
    assert!(!mentions_client(""));
}

#[test]
fn claim_verdict_scans_all_listings() {
    let listings = vec![
        "Image Name    PID\nnginx.exe     22".to_string(),
        "Image Name    PID\ncloudflared.exe  33".to_string(),
    ];
    assert!(any_mentions_client(&listings));
    assert!(!any_mentions_client(&vec!["nginx.exe 22".to_string()]));
    assert!(!any_mentions_client(&Vec::new()));
}

#[test]
fn path_resolution_takes_the_first_listed_line() {
    assert_eq!(
        resolve_client_path(true, "C:\\tools\\cloudflared.exe\r\nC:\\other\\cloudflared.exe\r\n"),
        "C:\\tools\\cloudflared.exe"
    );
    assert_eq!(resolve_client_path(true, "  /usr/bin/cloudflared  \n"), "/usr/bin/cloudflared");
    assert_eq!(resolve_client_path(false, "ignored"), "cloudflared");
    assert_eq!(resolve_client_path(true, ""), "cloudflared");
    assert_eq!(resolve_client_path(true, "   \n"), "cloudflared");
}
