use disk_analyzer::stat_services::system_info_service::{DiskInfo, SystemInfoService};

fn system_disks() -> Vec<DiskInfo> {
    let disks = sysinfo::Disks::new_with_refreshed_list();
    disks
        .list()
        .iter()
        .map(|disk| DiskInfo {
            name: disk.name().to_string_lossy().to_string(),
            mount_point: disk.mount_point().to_string_lossy().to_string(),
            total_space: disk.total_space(),
            available_space: disk.available_space(),
        })
        .collect()
}

#[test]
fn test_load_disk_stats() {
    let mut service = SystemInfoService::new(system_disks());

    let disks = service.get_available_disks();

    if disks.is_empty() {
        println!("No disks found");
        return;
    }

    let loaded = service.load_disk_stats(0);

    assert!(loaded);
    assert!(service.get_total_disk_space() > 0);

    let total = service.get_total_disk_space();
    let free = service.get_free_disk_space();
    let used = service.get_used_disk_space();

    assert_eq!(used, total - free);
}

#[test]
fn test_print_available_disks() {
    let service = SystemInfoService::new(system_disks());

    let disks = service.get_available_disks();

    println!("Found disks: {}", disks.len());

    for (index, disk) in disks.iter().enumerate() {
        println!("Disk index: {}", index);
        println!("Name: {:?}", disk.name);
        println!("Mount point: {:?}", disk.mount_point);
        println!("Total space: {}", disk.total_space);
        println!("Free space: {}", disk.available_space);
        println!("Used space: {}", disk.total_space - disk.available_space);
        println!("-------------------------");
    }
}

#[test]
fn test_selected_disk_stats() {
    let mut service = SystemInfoService::new(system_disks());

    let disks = service.get_available_disks();

    if disks.is_empty() {
        println!("No disks found");
        return;
    }

    let loaded = service.load_disk_stats(0);

    assert!(loaded);

    let total = service.get_total_disk_space();
    let free = service.get_free_disk_space();
    let used = service.get_used_disk_space();

    println!("Selected disk stats:");
    println!("Total space: {}", total);
    println!("Free space: {}", free);
    println!("Used space: {}", used);

    assert!(total > 0);
    assert_eq!(used, total - free);
}
fn sample_disks() -> Vec<DiskInfo> {
    vec![
        DiskInfo { name: String::from("sda"), mount_point: String::from("/"), total_space: 500, available_space: 120 },
        DiskInfo { name: String::from("sdb"), mount_point: String::from("/data"), total_space: 900, available_space: 900 },
    ]
}

#[test]
fn new_service_has_no_disk_loaded() {
    let service = SystemInfoService::new(sample_disks());

    assert_eq!(service.get_available_disks().len(), 2);
    assert_eq!(service.get_total_disk_space(), 0);
    assert_eq!(service.get_free_disk_space(), 0);
    assert_eq!(service.get_used_disk_space(), 0);
}

#[test]
fn load_disk_stats_takes_the_selected_disk() {
    let mut service = SystemInfoService::new(sample_disks());

    assert!(service.load_disk_stats(1));
    assert_eq!(service.get_total_disk_space(), 900);
    assert_eq!(service.get_free_disk_space(), 900);
    assert_eq!(service.get_used_disk_space(), 0);

    assert!(service.load_disk_stats(0));
    assert_eq!(service.get_used_disk_space(), 380);
}

#[test]
fn load_disk_stats_out_of_range_changes_nothing() {
    let mut service = SystemInfoService::new(sample_disks());
    assert!(service.load_disk_stats(0));

    assert!(!service.load_disk_stats(2));
    assert_eq!(service.get_total_disk_space(), 500);
    assert_eq!(service.get_free_disk_space(), 120);
    assert_eq!(service.get_used_disk_space(), 380);
}

#[test]
fn disk_selection_finds_the_disk_at_an_index() {
    let service = SystemInfoService::new(sample_disks());

    assert_eq!(service.disk_selection(1).map(|d| d.mount_point.as_str()), Some("/data"));
    assert!(service.disk_selection(5).is_none());
}
