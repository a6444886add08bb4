use discord_cache_explorer::cache::{CacheEntry, CacheKind};
use discord_cache_explorer::cache::DecodedImage;
use discord_cache_explorer::cli::{
    decode_finding, inspect_report, inspect_step, probe_finding, Command, Finding, GuiArgs, InspectStep,
    ListArgs,
};

fn entry(name: &str, len: u64, kind: CacheKind) -> CacheEntry {
    CacheEntry {
        path: format!("/cache/{name}").into_bytes(),
        file_name: name.to_string(),
        len,
        modified: None,
        kind,
    }
}

#[test]
fn default_command_opens_the_explorer() {
    assert_eq!(Command::default(), Command::Gui(GuiArgs { cache_dir: None }));
}

#[test]
fn listing_lines() {
    let entries = vec![
        entry("f_000001", 1234, CacheKind::Image),
        entry("data_1", 8192, CacheKind::Other),
        entry("f_000002", 52_428_800, CacheKind::Video),
    ];
    let args = ListArgs { cache_dir: None, limit: 2 };
    let lines = args.listing("/home/u/.config/Discord/Cache/Cache_Data", &entries);
    assert_eq!(
        lines,
        vec![
            "cache_dir=/home/u/.config/Discord/Cache/Cache_Data".to_string(),
            "files=3".to_string(),
            format!("{:>4} {:>5} {:>10} {}", 0, "image", 1234, "f_000001"),
            format!("{:>4} {:>5} {:>10} {}", 1, "other", 8192, "data_1"),
        ]
    );
    assert_eq!(lines[2], "   0 image       1234 f_000001");
    let all = ListArgs { cache_dir: None, limit: 50 }.listing("/c", &entries);
    assert_eq!(all.len(), 5);
    assert_eq!(all[4], "   2 video   52428800 f_000002");
    let none = ListArgs { cache_dir: None, limit: 0 }.listing("/c", &entries);
    assert_eq!(none, vec!["cache_dir=/c".to_string(), "files=3".to_string()]);
}

#[test]
fn inspect_reports() {
    assert_eq!(
        inspect_report("/c/f_1", 71, CacheKind::Image, &Finding::Decoded { width: 2, height: 1 }),
        "path=/c/f_1\nsize=71\nkind=image\nimage_decode=ok\nimage_width=2\nimage_height=1\n"
    );
    assert_eq!(
        inspect_report("/c/f_1", 5, CacheKind::Image, &Finding::DecodeFailed("bad".to_string())),
        "path=/c/f_1\nsize=5\nkind=image\nimage_decode=error\nimage_error=bad\n"
    );
    assert_eq!(
        inspect_report("/c/v", 9, CacheKind::Video, &Finding::Probed("format_name=mov\n".to_string())),
        "path=/c/v\nsize=9\nkind=video\nffprobe=ok\nformat_name=mov\n"
    );
    assert_eq!(
        inspect_report("/c/v", 9, CacheKind::Video, &Finding::ProbeFailed("failed to run ffprobe".to_string())),
        "path=/c/v\nsize=9\nkind=video\nffprobe=error\nffprobe_error=failed to run ffprobe\n"
    );
    assert_eq!(
        inspect_report("/c/x", 0, CacheKind::Other, &Finding::Nothing),
        "path=/c/x\nsize=0\nkind=other\n"
    );
}

#[test]
fn inspect_steps_by_kind() {
    assert_eq!(inspect_step(CacheKind::Image), InspectStep::DecodeImage);
    assert_eq!(inspect_step(CacheKind::Video), InspectStep::ProbeVideo);
    assert_eq!(inspect_step(CacheKind::Other), InspectStep::Nothing);
}

#[test]
fn findings_of_outcomes() {
    let image = DecodedImage { width: 3, height: 2, rgba: vec![0; 24] };
    assert_eq!(decode_finding(Ok(image)), Finding::Decoded { width: 3, height: 2 });
    assert_eq!(
        decode_finding(Err("No such file or directory".to_string())),
        Finding::DecodeFailed("No such file or directory".to_string())
    );
    assert_eq!(probe_finding(Ok("x=1\n".to_string())), Finding::Probed("x=1\n".to_string()));
    assert_eq!(
        probe_finding(Err("failed to run ffprobe".to_string())),
        Finding::ProbeFailed("failed to run ffprobe".to_string())
    );
}
