use isekai::bootcfg::{
    boot_config_patterns, boot_config_search_paths, decide_flavor, fedora_kernel_candidates, fill_template,
    is_conf_file, label_replacement, menu_lst, patch_config_content, IsoFlavor, PayloadProbe,
};

fn probe() -> PayloadProbe {
    PayloadProbe {
        has_casper: false,
        has_initrd_lz: false,
        has_initrd_gz: false,
        has_live_os: false,
        fedora_kernels: vec![],
        has_arch: false,
        arch_boot_files: vec![],
        has_intel_ucode: false,
        has_amd_ucode: false,
    }
}

#[test]
fn menu_for_casper_payload() {
    let menu = menu_lst(&IsoFlavor::Ubuntu { initrd_file: "initrd.lz".to_string() });
    assert_eq!(menu, "default 0\ntimeout 5\ncolor normal=white/black highlight=black/light-gray\n\n\ntitle Project Isekai\n                    find --set-root /casper/vmlinuz\n                    kernel /casper/vmlinuz boot=casper live-media-path=/casper quiet splash ---\n                    initrd /casper/initrd.lz\n\n                    title Project Isekai (Fallback)\n                    find --set-root /casper/vmlinuz\n                    kernel /casper/vmlinuz boot=casper live-media-path=/casper nomodeset ---\n                    initrd /casper/initrd.lz\n                ");
}

#[test]
fn menu_for_archiso_payload() {
    let menu = menu_lst(&IsoFlavor::Arch {
        kernel_path: "/arch/boot/x86_64/vmlinuz-linux".to_string(),
        initrd_path: "/arch/boot/intel-ucode.img /arch/boot/x86_64/initramfs-linux.img".to_string(),
    });
    assert_eq!(menu, "default 0\ntimeout 5\ncolor normal=white/black highlight=black/light-gray\n\n\ntitle Project Isekai\n                    find --set-root /arch/boot/x86_64/vmlinuz-linux\n                    kernel /arch/boot/x86_64/vmlinuz-linux archisobasedir=arch archisolabel=LINUX_LIVE quiet splash\n                    initrd /arch/boot/intel-ucode.img /arch/boot/x86_64/initramfs-linux.img\n\n                    title Project Isekai (Fallback)\n                    find --set-root /arch/boot/x86_64/vmlinuz-linux\n                    kernel /arch/boot/x86_64/vmlinuz-linux archisobasedir=arch archisolabel=LINUX_LIVE nomodeset\n                    initrd /arch/boot/intel-ucode.img /arch/boot/x86_64/initramfs-linux.img\n                ");
}

#[test]
fn menu_for_dracut_payload() {
    let menu = menu_lst(&IsoFlavor::Fedora {
        kernel_path: "/images/pxeboot/vmlinuz".to_string(),
        initrd_path: "/images/pxeboot/initrd.img".to_string(),
    });
    assert_eq!(menu, "default 0\ntimeout 5\ncolor normal=white/black highlight=black/light-gray\n\n\ntitle Project Isekai (Live Desktop Mode)\n                    find --set-root /images/pxeboot/vmlinuz\n                    kernel /images/pxeboot/vmlinuz root=live:LABEL=LINUX_LIVE rd.live.image quiet splash\n                    initrd /images/pxeboot/initrd.img\n\n                    title Project Isekai (Fallback - Live Desktop Mode)\n                    find --set-root /images/pxeboot/vmlinuz\n                    kernel /images/pxeboot/vmlinuz root=live:LABEL=LINUX_LIVE rd.live.image nomodeset\n                    initrd /images/pxeboot/initrd.img\n\n                    title Project Isekai (Installer Mode - 8GB+ RAM Recommended)\n                    find --set-root /images/pxeboot/vmlinuz\n                    kernel /images/pxeboot/vmlinuz root=live:LABEL=LINUX_LIVE rd.live.image rd.live.ram=1 quiet splash\n                    initrd /images/pxeboot/initrd.img\n\n                    title Project Isekai (Fallback - Installer Mode)\n                    find --set-root /images/pxeboot/vmlinuz\n                    kernel /images/pxeboot/vmlinuz root=live:LABEL=LINUX_LIVE rd.live.image rd.live.ram=1 nomodeset\n                    initrd /images/pxeboot/initrd.img\n                ");
}

#[test]
fn menu_for_unknown_payload() {
    assert_eq!(menu_lst(&IsoFlavor::Unknown), "default 0\ntimeout 5\ncolor normal=white/black highlight=black/light-gray\n\n\ntitle Project Isekai\n                    find --set-root /casper/vmlinuz\n                    kernel /casper/vmlinuz boot=casper live-media-path=/casper quiet splash ---\n                    initrd /casper/initrd.lz\n                ");
}

#[test]
fn menu_starts_with_header() {
    let menu = menu_lst(&IsoFlavor::Unknown);
    assert!(menu.starts_with("default 0\ntimeout 5\ncolor normal=white/black highlight=black/light-gray\n\n\n"));
}

#[test]
fn fill_template_interleaves() {
    assert_eq!(fill_template(&vec!["<", "|", ">"], &vec!["a", "b"]), "<a|b>");
    assert_eq!(fill_template(&vec!["only"], &vec![]), "only");
}

#[test]
fn casper_prefers_lz_then_gz() {
    let mut p = probe();
    p.has_casper = true;
    p.has_initrd_gz = true;
    assert_eq!(decide_flavor(&p), IsoFlavor::Ubuntu { initrd_file: "initrd.gz".to_string() });
    p.has_initrd_lz = true;
    assert_eq!(decide_flavor(&p), IsoFlavor::Ubuntu { initrd_file: "initrd.lz".to_string() });
    p.has_initrd_lz = false;
    p.has_initrd_gz = false;
    assert_eq!(decide_flavor(&p), IsoFlavor::Ubuntu { initrd_file: "initrd".to_string() });
}

#[test]
fn casper_wins_over_other_markers() {
    let mut p = probe();
    p.has_casper = true;
    p.has_live_os = true;
    p.has_arch = true;
    assert!(matches!(decide_flavor(&p), IsoFlavor::Ubuntu { .. }));
}

#[test]
fn dracut_takes_first_existing_kernel() {
    let mut p = probe();
    p.has_live_os = true;
    p.fedora_kernels = vec![false, false, true, true, false];
    assert_eq!(
        decide_flavor(&p),
        IsoFlavor::Fedora { kernel_path: "/isolinux/vmlinuz".to_string(), initrd_path: "/isolinux/initrd.img".to_string() }
    );
}

#[test]
fn dracut_defaults_to_pxeboot() {
    let mut p = probe();
    p.has_live_os = true;
    p.fedora_kernels = vec![false, false];
    assert_eq!(
        decide_flavor(&p),
        IsoFlavor::Fedora {
            kernel_path: "/images/pxeboot/vmlinuz".to_string(),
            initrd_path: "/images/pxeboot/initrd.img".to_string()
        }
    );
}

#[test]
fn dracut_candidates_in_order() {
    let c = fedora_kernel_candidates();
    assert_eq!(c.len(), 5);
    assert_eq!(c[0], ("boot/x86_64/loader/linux", "boot/x86_64/loader/initrd"));
    assert_eq!(c[4], ("EFI/BOOT/vmlinuz", "EFI/BOOT/initrd.img"));
}

#[test]
fn archiso_skips_lts_and_keeps_last_match() {
    let mut p = probe();
    p.has_arch = true;
    p.has_amd_ucode = true;
    p.arch_boot_files = vec![
        "vmlinuz-linux-lts".to_string(),
        "initramfs-linux-lts.img".to_string(),
        "vmlinuz-linux-zen".to_string(),
        "initramfs-linux-zen.img".to_string(),
        "initramfs-linux-fallback.imgx".to_string(),
    ];
    assert_eq!(
        decide_flavor(&p),
        IsoFlavor::Arch {
            kernel_path: "/arch/boot/x86_64/vmlinuz-linux-zen".to_string(),
            initrd_path: "/arch/boot/amd-ucode.img /arch/boot/x86_64/initramfs-linux-zen.img".to_string()
        }
    );
}

#[test]
fn archiso_defaults_with_both_microcodes() {
    let mut p = probe();
    p.has_arch = true;
    p.has_intel_ucode = true;
    p.has_amd_ucode = true;
    assert_eq!(
        decide_flavor(&p),
        IsoFlavor::Arch {
            kernel_path: "/arch/boot/x86_64/vmlinuz-linux".to_string(),
            initrd_path: "/arch/boot/intel-ucode.img /arch/boot/amd-ucode.img /arch/boot/x86_64/initramfs-linux.img".to_string()
        }
    );
}

#[test]
fn nothing_recognised_is_unknown() {
    assert_eq!(decide_flavor(&probe()), IsoFlavor::Unknown);
}

#[test]
fn relabels_dracut_root() {
    let (text, patched) = patch_config_content("linux /vmlinuz root=live:CDLABEL=Fedora-WS-Live quiet", "LINUX_LIVE");
    assert!(patched);
    assert_eq!(text, "linux /vmlinuz root=live:CDLABEL=LINUX_LIVE quiet");
}

#[test]
fn relabels_archiso_label_and_device() {
    let (text, patched) = patch_config_content(
        "linux /arch/boot/x86_64/vmlinuz-linux archisobasedir=arch archisolabel=ARCH_202401\ninitrd x archisodevice=/dev/disk/by-label/ARCH_202401",
        "LINUX_LIVE",
    );
    assert!(patched);
    assert_eq!(
        text,
        "linux /arch/boot/x86_64/vmlinuz-linux archisobasedir=arch archisolabel=LINUX_LIVE\ninitrd x archisodevice=/dev/disk/by-label/LINUX_LIVE"
    );
}

#[test]
fn relabels_grub_search_lines() {
    let (text, patched) = patch_config_content("search --no-floppy --label UBUNTU x", "NEW");
    assert!(patched);
    assert_eq!(text, "search --no-floppy --label NEW x");
}

#[test]
fn later_search_patterns_drop_quotes_kept_by_earlier_ones() {
    let (text, patched) = patch_config_content(
        "search --no-floppy --set=root --label 'Ubuntu 22' x\nsearch --fs-label \"OLD\"",
        "NEW",
    );
    assert!(patched);
    assert_eq!(text, "search --no-floppy --set=root --label NEW 22' x\nsearch --fs-label NEW");
}

#[test]
fn relabels_isolabel() {
    let (text, patched) = patch_config_content("set isolabel=OLD_LABEL\n", "LINUX_LIVE");
    assert!(patched);
    assert_eq!(text, "set isolabel=LINUX_LIVE\n");
}

#[test]
fn config_without_labels_is_untouched() {
    let (text, patched) = patch_config_content("menuentry 'x' { linux /vmlinuz quiet }", "LINUX_LIVE");
    assert!(!patched);
    assert_eq!(text, "menuentry 'x' { linux /vmlinuz quiet }");
}

#[test]
fn already_relabelled_still_counts_as_patched() {
    let (text, patched) = patch_config_content("root=live:LABEL=LINUX_LIVE", "LINUX_LIVE");
    assert!(patched);
    assert_eq!(text, "root=live:LABEL=LINUX_LIVE");
}

#[test]
fn eight_patterns_in_order() {
    let p = boot_config_patterns();
    assert_eq!(p.len(), 8);
    assert_eq!(p[0], r"(?m)(root=live:(?:CD)?LABEL=)[^\s\\]+");
}

#[test]
fn replacement_joins_parts() {
    assert_eq!(label_replacement(Some("a="), "L", Some("'")), "a=L'");
    assert_eq!(label_replacement(Some("CDLABEL="), "L", None), "CDLABEL=L");
    assert_eq!(label_replacement(None, "L", None), "L");
}

#[test]
fn search_paths_listed() {
    let p = boot_config_search_paths();
    assert_eq!(p.len(), 11);
    assert_eq!(p[0], "EFI\\BOOT\\grub.cfg");
    assert_eq!(p[10], "syslinux\\archiso_pxe.cfg");
}

#[test]
fn conf_extension_as_path_reads_it() {
    assert!(is_conf_file("arch.conf"));
    assert!(is_conf_file("a.b.conf"));
    assert!(is_conf_file("..conf"));
    assert!(!is_conf_file(".conf"));
    assert!(!is_conf_file("conf"));
    assert!(!is_conf_file("arch.cfg"));
    assert!(!is_conf_file("arch.conf.bak"));
}
