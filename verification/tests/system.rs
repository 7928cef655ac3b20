use ward::system::{
    block_devices_model,
    count_label_text, info_from_facts, is_storage_device_name, main_storage_text,
    operating_system_text, processor_name_text, profiler_model_text, refresh_due,
    storage_totals, sysfs_model_text, text_lines_of, total_space, uptime_from_secs,
    wmic_model_text, HardwareFacts,
};

#[test]
fn uptime_is_split_and_padded() {
    let u = uptime_from_secs(0);
    assert_eq!((u.days.as_str(), u.hours.as_str(), u.minutes.as_str(), u.seconds.as_str()), ("00", "00", "00", "00"));
    let u = uptime_from_secs(90061);
    assert_eq!((u.days.as_str(), u.hours.as_str(), u.minutes.as_str(), u.seconds.as_str()), ("01", "01", "01", "01"));
    let u = uptime_from_secs(123 * 86400 + 23 * 3600 + 59 * 60 + 59);
    assert_eq!((u.days.as_str(), u.hours.as_str(), u.minutes.as_str(), u.seconds.as_str()), ("123", "23", "59", "59"));
}

#[test]
fn refresh_after_a_second() {
    assert!(!refresh_due(0));
    assert!(refresh_due(1));
    assert!(refresh_due(60));
}

#[test]
fn counts_take_their_plural_above_one() {
    assert_eq!(count_label_text(0, "Core", "Cores"), "0 Core");
    assert_eq!(count_label_text(1, "Core", "Cores"), "1 Core");
    assert_eq!(count_label_text(8, "Core", "Cores"), "8 Cores");
}

#[test]
fn processor_name_from_brand() {
    assert_eq!(processor_name_text("Intel(R) Core(TM) i7-8650U CPU @ 1.90GHz", "cpu0"), "Intel(R) Core(TM) i7-8650U CPU");
    assert_eq!(processor_name_text("  AMD Ryzen 7 ", "cpu0"), "AMD Ryzen 7");
    assert_eq!(processor_name_text("@ 2GHz", "cpu0"), "cpu0");
    assert_eq!(processor_name_text("", "cpu0"), "cpu0");
}

#[test]
fn operating_system_label() {
    assert_eq!(operating_system_text(Some("Ubuntu".to_string()), Some("24.04".to_string())), "Ubuntu 24.04");
    assert_eq!(operating_system_text(None, None), "Unknown ");
}

#[test]
fn main_storage_choice() {
    let names = vec![String::new(), "sda".to_string()];
    assert_eq!(main_storage_text("Samsung SSD", &names), "Samsung SSD");
    assert_eq!(main_storage_text("Undefined", &names), "sda");
    assert_eq!(main_storage_text("Undefined", &vec![String::new()]), "Disk");
    let undefined = vec![String::new(), "Undefined".to_string(), "sdb".to_string()];
    assert_eq!(main_storage_text("Undefined", &undefined), "Disk");
}

#[test]
fn disk_sums() {
    assert_eq!(total_space(&vec![1, 2, 3]), Some(6));
    assert_eq!(total_space(&vec![]), Some(0));
    assert_eq!(total_space(&vec![u64::MAX, 1]), None);
    assert_eq!(storage_totals(&vec![(100, 40), (50, 50)]), Some((150, 60)));
    assert_eq!(storage_totals(&vec![(10, 20)]), None);
    assert_eq!(storage_totals(&vec![(u64::MAX, 0), (1, 0)]), None);
}

#[test]
fn lines_are_trimmed_and_blank_ones_dropped() {
    assert_eq!(text_lines_of("Model  \r\n\r\n Samsung SSD 970 \r\n"), vec!["Model".to_string(), "Samsung SSD 970".to_string()]);
    assert!(text_lines_of("").is_empty());
}

#[test]
fn storage_models_from_tool_output() {
    assert_eq!(wmic_model_text("Model\r\r\nSamsung SSD 970 EVO\r\r\n\r\r\n"), Some("Samsung SSD 970 EVO".to_string()));
    assert_eq!(wmic_model_text("Model\n"), None);
    let profiler = "Storage:\n\n    Macintosh HD:\n\n      Physical Drive:\n          Device Name: APPLE SSD\n          Media Name: AppleAPFSMedia\n";
    assert_eq!(profiler_model_text(profiler), Some("AppleAPFSMedia".to_string()));
    assert_eq!(profiler_model_text("Device Name: a:b\n"), None);
    assert_eq!(profiler_model_text("Device Name:  WD Blue  \n"), Some("WD Blue".to_string()));
    assert_eq!(sysfs_model_text("  WDC WD10EZEX  \n"), Some("WDC WD10EZEX".to_string()));
    assert_eq!(sysfs_model_text(" \n"), None);
    assert!(is_storage_device_name("sda"));
    assert!(is_storage_device_name("nvme0n1"));
    assert!(!is_storage_device_name("loop0"));
    assert!(!is_storage_device_name("ram1"));
    assert!(!is_storage_device_name("fd0"));
    assert!(!is_storage_device_name("sr0"));
}

#[test]
fn info_is_drawn_from_facts() {
    let info = info_from_facts(HardwareFacts {
        cpu_brand: "AMD Ryzen 5 @ 3.6GHz".to_string(),
        cpu_name: "cpu0".to_string(),
        core_count: 12,
        clock_ghz: "3.6".to_string(),
        is_64_bit: true,
        os_name: Some("Debian".to_string()),
        os_version: Some("12".to_string()),
        total_ram: "16 GiB".to_string(),
        proc_count: 1,
        storage_model: "Undefined".to_string(),
        disk_names: vec!["nvme0n1".to_string()],
        total_storage: "477 GiB".to_string(),
        swap: "2 GiB".to_string(),
    });
    assert_eq!(info.processor.name, "AMD Ryzen 5");
    assert_eq!(info.processor.core_count, "12 Cores");
    assert_eq!(info.processor.clock_speed, "3.6 GHz");
    assert_eq!(info.processor.bit_depth, "64-bit");
    assert_eq!(info.machine.operating_system, "Debian 12");
    assert_eq!(info.machine.total_ram, "16 GiB RAM");
    assert_eq!(info.machine.ram_type_or_os_bit_depth, "64-bit");
    assert_eq!(info.machine.proc_count, "1 Proc");
    assert_eq!(info.storage.main_storage, "nvme0n1");
    assert_eq!(info.storage.total, "477 GiB Total");
    assert_eq!(info.storage.disk_count, "1 Disk");
    assert_eq!(info.storage.swap_amount, "2 GiB Swap");
}

#[test]
fn block_devices_give_the_first_model() {
    let devices = vec![
        ("loop0".to_string(), Some("Loop model".to_string())),
        ("sda".to_string(), Some("  \n".to_string())),
        ("sdb".to_string(), None),
        ("nvme0n1".to_string(), Some(" Samsung SSD 980 \n".to_string())),
        ("sdc".to_string(), Some("Other".to_string())),
    ];
    assert_eq!(block_devices_model(&devices), Some("Samsung SSD 980".to_string()));
    assert_eq!(block_devices_model(&vec![("sr0".to_string(), Some("DVD".to_string()))]), None);
    assert_eq!(block_devices_model(&vec![]), None);
}
