use hydra::aws::{
    mock_termination_notice, parse_termination_time, started_instance_private_ip,
    termination_poll, InstanceDescription,
    NetworkInterfaceDescription, ReservationDescription, TerminationPoll,
    MOCK_TERMINATION_LEAD_SECONDS, SPOT_TERMINATION_LEAD_SECONDS,
};
use hydra::gcp::{
    add_ssh_key_to_metadata, find_machine_image, instance_ip_poll, instance_name_with_suffix,
    machine_type_url, metadata_leaf, new_instance_name, source_image_url, MachineImage,
    MetadataItem, NetworkInterface,
};
use hydra::pricing::{compared_prices, offers_on_demand_and_preemptible, InstanceType};

#[test]
fn termination_notice_on_success_status_only() {
    let body = "2015-01-05T18:02:00Z";
    let t = 1420480920u64;
    assert_eq!(termination_poll(200, body, t - 120), TerminationPoll::Terminating(120));
    assert_eq!(termination_poll(299, body, t - 5), TerminationPoll::Terminating(5));
    assert_eq!(termination_poll(200, body, t + 30), TerminationPoll::Terminating(0));
    assert_eq!(
        termination_poll(200, "not a time", t),
        TerminationPoll::Terminating(SPOT_TERMINATION_LEAD_SECONDS)
    );
    assert_eq!(termination_poll(404, body, t), TerminationPoll::KeepPolling);
    assert_eq!(termination_poll(199, body, t), TerminationPoll::KeepPolling);
    assert_eq!(termination_poll(300, body, t), TerminationPoll::KeepPolling);
    assert_eq!(mock_termination_notice(), TerminationPoll::Terminating(117));
    assert_eq!(MOCK_TERMINATION_LEAD_SECONDS, 117);
}

#[test]
fn termination_times_are_read_as_utc() {
    assert_eq!(parse_termination_time("1970-01-01T00:00:00Z"), Some(0));
    assert_eq!(parse_termination_time("2015-01-05T18:02:00Z"), Some(1420480920));
    assert_eq!(parse_termination_time("2000-02-29T23:59:59Z"), Some(951868799));
    assert_eq!(parse_termination_time("2024-12-31T12:00:00Z"), Some(1735646400));
    assert_eq!(parse_termination_time("1969-12-31T23:59:59Z"), Some(-1));
    assert_eq!(parse_termination_time("0001-01-01T00:00:00Z"), Some(-62135596800));
    assert_eq!(parse_termination_time("9999-12-31T23:59:59Z"), Some(253402300799));
    assert_eq!(parse_termination_time("2023-02-29T00:00:00Z"), None);
    assert_eq!(parse_termination_time("2015-13-05T18:02:00Z"), None);
    assert_eq!(parse_termination_time("2015-01-05T24:00:00Z"), None);
    assert_eq!(parse_termination_time("2015-01-05 18:02:00Z"), None);
    assert_eq!(parse_termination_time("2015-01-05T18:02:00"), None);
    assert_eq!(parse_termination_time(""), None);
}

#[test]
fn private_ip_of_first_interface() {
    let reservations = vec![ReservationDescription {
        instances: vec![InstanceDescription {
            network_interfaces: vec![
                NetworkInterfaceDescription { private_ip_address: Some("172.31.0.7".to_string()) },
                NetworkInterfaceDescription { private_ip_address: Some("172.31.0.8".to_string()) },
            ],
        }],
    }];
    assert_eq!(started_instance_private_ip(&reservations), "172.31.0.7");
}

#[test]
fn ssh_key_appended_to_ssh_keys_items_only() {
    let mut items = vec![
        MetadataItem { key: Some("startup-script".to_string()), value: Some("echo".to_string()) },
        MetadataItem { key: Some("ssh-keys".to_string()), value: Some("alice:ssh-rsa AAA".to_string()) },
        MetadataItem { key: Some("other".to_string()), value: None },
    ];
    add_ssh_key_to_metadata(&mut items, "ssh-ed25519 BBB me@host");
    assert_eq!(items.len(), 3);
    assert_eq!(items[0].value.as_deref(), Some("echo"));
    assert_eq!(items[1].key.as_deref(), Some("ssh-keys"));
    assert_eq!(items[1].value.as_deref(), Some("alice:ssh-rsa AAA\nssh-ed25519 BBB me@host"));
    assert_eq!(items[2].value, None);
}

#[test]
fn machine_image_found_by_name() {
    let images = vec![
        MachineImage { name: None },
        MachineImage { name: Some("base".to_string()) },
        MachineImage { name: Some("hydra".to_string()) },
        MachineImage { name: Some("hydra".to_string()) },
    ];
    assert_eq!(find_machine_image(&images, "hydra"), Some(2));
    assert_eq!(find_machine_image(&images, "base"), Some(1));
    assert_eq!(find_machine_image(&images, "missing"), None);
}

#[test]
fn instance_names_and_urls() {
    assert_eq!(instance_name_with_suffix(0), "nested-qemu-0");
    assert_eq!(instance_name_with_suffix(4294967295), "nested-qemu-4294967295");
    let random = new_instance_name();
    let suffix = random.strip_prefix("nested-qemu-").expect("prefix");
    assert_eq!(suffix.parse::<u32>().unwrap().to_string(), suffix);
    assert_eq!(source_image_url("proj", "img"), "projects/proj/global/images/img");
    assert_eq!(
        machine_type_url("proj", "europe-west1-b", "n2-standard-4"),
        "projects/proj/zones/europe-west1-b/machineTypes/n2-standard-4"
    );
    assert_eq!(metadata_leaf("projects/123/zones/europe-west1-b"), "europe-west1-b");
    assert_eq!(metadata_leaf("plain"), "plain");
}

#[test]
fn instance_ip_available_once_first_interface_has_one() {
    assert_eq!(instance_ip_poll(&None), None);
    assert_eq!(instance_ip_poll(&Some(vec![NetworkInterface { network_ip: None }])), None);
    assert_eq!(
        instance_ip_poll(&Some(vec![
            NetworkInterface { network_ip: Some("10.132.0.9".to_string()) },
            NetworkInterface { network_ip: Some("10.132.0.10".to_string()) },
        ])),
        Some("10.132.0.9".to_string())
    );
}

#[test]
fn prices_compared_when_both_kinds_offered() {
    let both = vec![InstanceType::Spot, InstanceType::Preemptible, InstanceType::OnDemand, InstanceType::OnDemand];
    assert!(offers_on_demand_and_preemptible(&both));
    assert_eq!(compared_prices(&both), (2, 1));
    assert!(!offers_on_demand_and_preemptible(&vec![InstanceType::OnDemand, InstanceType::Spot]));
    assert!(!offers_on_demand_and_preemptible(&vec![]));
}
