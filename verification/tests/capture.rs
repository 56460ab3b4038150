//! Sources: naming them, listing cameras, and reading replayed frames.

use vigilo_core::capture::camera::{
    camera_name, capture_args, choose_device, field_after, list_devices, list_formats, open_failure,
    parse_avfoundation_devices, parse_dshow_devices, parse_dshow_formats, strip_ffmpeg_prefix, unquote, CameraDevice,
    CameraFormat, CameraSource, Listing, Platform, VideoNode,
};
use vigilo_core::capture::replay::{
    decode_args, list_images, probe_args, probe_failure, probe_video, ImageDirSource, Rate, VideoFileSource, VideoProbe,
};
use vigilo_core::capture::{helper_file, FrameSource, Opening, SourceSpec, FFMPEG_MISSING_HELP};
use vigilo_core::config::CaptureConfig;
use vigilo_core::error::DetectError;
use vigilo_core::number::Number;
use vigilo_core::types::Frame;

const DEVICE_LIST: &str = r#"
[in#0 @ 0000000000717100] "Integrated Webcam" (video)
[in#0 @ 0000000000717100]   Alternative name "@device_pnp_\\?\usb#vid_0c45&pid_6a09&mi_00#6&47d1d30&0&0000#{65e8773d-8f56-11d0-a3b9-00a0c9223196}\global"
[in#0 @ 0000000000717100] "OBS Virtual Camera" (none)
[in#0 @ 0000000000717100]   Alternative name "@device_sw_{860BB310-5D01-11D0-BD3B-00A0C911CE86}\{A3FCE0F5-3493-419F-958A-ABA1250EC20B}"
[in#0 @ 0000000000717100] "Microphone Array (Realtek(R) Audio)" (audio)
[in#0 @ 0000000000717100]   Alternative name "@device_cm_{33D9A762-90C8-11D0-BD43-00A0C911CE86}\wave_{FCA63AC5-3CA6-4BEE-AD70-C0E92BCE028E}"
Error opening input file dummy.
"#;

const FORMAT_LIST: &str = r#"
[in#0 @ 0000000000674b00]   vcodec=mjpeg  min s=1280x720 fps=30 max s=1280x720 fps=30
[in#0 @ 0000000000674b00]   vcodec=mjpeg  min s=640x480 fps=30 max s=640x480 fps=30
[in#0 @ 0000000000674b00]   pixel_format=yuyv422  min s=1280x720 fps=10 max s=1280x720 fps=10
[in#0 @ 0000000000674b00]   pixel_format=yuyv422  min s=320x180 fps=30 max s=320x180 fps=30
"#;

fn rate(f: &CameraFormat) -> f32 {
    f.fps.as_deref().and_then(|t| t.parse::<f32>().ok()).unwrap_or(0.0)
}

#[test]
fn parses_devices_and_drops_the_microphone() {
    let devices = parse_dshow_devices(DEVICE_LIST);
    assert_eq!(devices.len(), 2, "audio devices must not take up a camera index");
    assert_eq!(devices[0].index, 0);
    assert_eq!(devices[0].name, "Integrated Webcam");
    assert!(devices[0].alt_name.as_deref().unwrap().starts_with("@device_pnp_"));
    // A virtual camera reports as (none) but is still selectable.
    assert_eq!(devices[1].name, "OBS Virtual Camera");
    assert_eq!(devices[1].index, 1);
}

#[test]
fn an_audio_alternative_name_is_not_attached_to_the_previous_camera() {
    // The mic's alt-name line follows the last kept device; attaching it
    // would silently point the camera at a microphone.
    let devices = parse_dshow_devices(DEVICE_LIST);
    assert!(devices[1].alt_name.as_deref().unwrap().starts_with("@device_sw_"));
}

#[test]
fn empty_output_yields_no_devices_rather_than_a_bogus_one() {
    assert!(parse_dshow_devices("").is_empty());
    assert!(parse_dshow_devices("Error opening input file dummy.").is_empty());
}

#[test]
fn parses_formats_including_the_yuyv_frame_rate_cliff() {
    let formats = parse_dshow_formats(FORMAT_LIST);
    assert_eq!(formats.len(), 4);
    assert_eq!(
        formats[0],
        CameraFormat { codec: "mjpeg".into(), width: 1280, height: 720, fps: Some("30".into()) }
    );
    assert_eq!(rate(&formats[0]), 30.0);
    // This is the reason `prefer_mjpeg` defaults to true: the same
    // resolution over raw YUYV is capped at a third of the frame rate.
    let raw_720p = formats.iter().find(|f| f.codec == "yuyv422" && f.height == 720).unwrap();
    assert_eq!(rate(raw_720p), 10.0);
}

#[test]
fn device_selector_prefers_the_unambiguous_path() {
    let with_alt = CameraDevice {
        index: 0,
        name: "Integrated Webcam".into(),
        alt_name: Some("@device_pnp_x".into()),
    };
    assert_eq!(with_alt.selector(), "@device_pnp_x");

    let without = CameraDevice { index: 0, name: "Integrated Webcam".into(), alt_name: None };
    assert_eq!(without.selector(), "Integrated Webcam");
    assert_eq!(with_alt.duplicate(), with_alt);
}

#[test]
fn parses_every_spec_form() {
    assert_eq!("camera:0".parse::<SourceSpec>().unwrap(), SourceSpec::Camera { index: 0 });
    assert_eq!("cam:2".parse::<SourceSpec>().unwrap(), SourceSpec::Camera { index: 2 });
    assert_eq!(
        "file:samples/a b.mp4".parse::<SourceSpec>().unwrap(),
        SourceSpec::File { path: "samples/a b.mp4".into() }
    );
    // Windows paths contain a colon; only the first one is the separator.
    assert_eq!(
        r"file:C:\clips\a.mp4".parse::<SourceSpec>().unwrap(),
        SourceSpec::File { path: r"C:\clips\a.mp4".into() }
    );
}

#[test]
fn rejects_nonsense_with_a_useful_message() {
    let err = "webcam".parse::<SourceSpec>().unwrap_err().to_string();
    assert!(err.contains("camera:<index>"), "{err}");
    assert!("camera:left".parse::<SourceSpec>().is_err());
    assert!("rtsp:whatever".parse::<SourceSpec>().is_err());
}

#[test]
fn display_roundtrips() {
    for s in ["camera:1", "file:x.mp4", "dir:frames"] {
        assert_eq!(s.parse::<SourceSpec>().unwrap().to_string(), s);
    }
}

#[test]
fn refused_sources_quote_what_was_given() {
    assert_eq!(
        SourceSpec::from_str("camera:a\"b\n"),
        Err(DetectError::source("camera:a\"b\n", "camera index must be a number, got \"a\\\"b\\n\""))
    );
    assert_eq!(
        SourceSpec::from_str("rtsp:whatever"),
        Err(DetectError::source("rtsp:whatever", "unknown source kind \"rtsp\"; expected camera, file or dir"))
    );
    assert_eq!(SourceSpec::from_str("camera:+7"), Ok(SourceSpec::Camera { index: 7 }));
    assert_eq!(SourceSpec::from_str("camera:4294967295"), Ok(SourceSpec::Camera { index: u32::MAX }));
    assert!(SourceSpec::from_str("camera:4294967296").is_err());
    assert!(SourceSpec::from_str("camera:").is_err());
    assert!(SourceSpec::from_str("camera:-1").is_err());
}

fn settings() -> CaptureConfig {
    CaptureConfig { device_index: 5, width: 1280, height: 720, fps: 30, prefer_mjpeg: true }
}

#[test]
fn opening_follows_the_spec_rather_than_the_configuration() {
    assert_eq!(
        SourceSpec::Camera { index: 2 }.open(&settings()),
        Opening::Camera { capture: CaptureConfig { device_index: 2, ..settings() } }
    );
    assert_eq!(
        SourceSpec::File { path: "a.mp4".into() }.open(&settings()),
        Opening::File { path: "a.mp4".into() }
    );
    let still = CaptureConfig { fps: 0, ..settings() };
    assert_eq!(
        SourceSpec::Dir { path: "frames".into() }.open(&still),
        Opening::Dir { path: "frames".into(), fps: 1 }
    );
}

#[test]
fn the_pieces_of_a_listing_line_come_apart() {
    let chars = |s: &str| s.chars().collect::<Vec<char>>();
    let text = |s: &[char]| s.iter().collect::<String>();

    assert_eq!(text(strip_ffmpeg_prefix(&chars("[dshow @ 0x1]  hello  "))), "hello");
    assert_eq!(text(strip_ffmpeg_prefix(&chars("  [no close "))), "[no close");
    let line = chars("vcodec=mjpeg  s=640x480");
    assert_eq!(field_after(&line, "vcodec=").map(text), Some("mjpeg".to_string()));
    assert_eq!(field_after(&line, "s=").map(text), Some("640x480".to_string()));
    assert_eq!(field_after(&line, "fps="), None);
    assert_eq!(field_after(&chars("a= b"), "a="), None);
    assert_eq!(unquote(&chars("\"x\"")).map(text), Some("x".to_string()));
    assert_eq!(unquote(&chars("\"")), None);
}

#[test]
fn formats_are_reported_at_their_ceiling() {
    let printed = "vcodec=h264  min s=640x480 fps=5 max s=1920x1080 fps=60.5\nvcodec=bad s=axb\n";
    let formats = parse_dshow_formats(printed);
    assert_eq!(formats.len(), 1);
    assert_eq!((formats[0].width, formats[0].height), (1920, 1080));
    assert_eq!(rate(&formats[0]), 60.5);
    assert_eq!(formats[0].to_string("60.5"), "h264       1920x1080 @ 60.5 fps");

    let plain = list_formats(None);
    assert_eq!(plain.len(), 2);
    assert_eq!((plain[0].codec.as_str(), plain[0].width, rate(&plain[0])), ("raw", 1280, 30.0));
    assert_eq!((plain[1].codec.as_str(), plain[1].width, rate(&plain[1])), ("raw", 640, 30.0));
    assert_eq!(list_formats(Some(FORMAT_LIST)).len(), 4);
}

#[test]
fn avfoundation_devices_stop_at_the_audio_section() {
    let printed = "[AVFoundation indev @ 0x7f] AVFoundation video devices:\n\
                   [AVFoundation indev @ 0x7f] [0] FaceTime HD Camera\n\
                   [AVFoundation indev @ 0x7f] [1] Capture screen 0\n\
                   [AVFoundation indev @ 0x7f] AVFoundation audio devices:\n\
                   [AVFoundation indev @ 0x7f] [0] MacBook Microphone\n";
    let devices = parse_avfoundation_devices(printed);
    assert_eq!(devices.len(), 2);
    assert_eq!((devices[0].index, devices[0].name.as_str()), (0, "FaceTime HD Camera"));
    assert_eq!((devices[1].index, devices[1].name.as_str()), (1, "Capture screen 0"));
    assert_eq!(devices[0].alt_name, None);
}

fn node(entry: &str, present: bool, label: Option<&str>) -> VideoNode {
    VideoNode { entry: entry.into(), present, label: label.map(|l| l.into()) }
}

#[test]
fn kernel_devices_come_in_order_of_their_names() {
    let nodes = vec![
        node("video2", true, None),
        node("video0", true, Some(" Integrated Camera \n")),
        node("video1", false, Some("gone")),
        node("vbi0", true, Some("not a camera")),
    ];
    let devices = list_devices(&Listing::Linux { nodes, files: vec![true, true] }).unwrap();
    assert_eq!(devices.len(), 2);
    assert_eq!((devices[0].index, devices[0].name.as_str()), (0, "Integrated Camera"));
    assert_eq!(devices[0].alt_name.as_deref(), Some("/dev/video0"));
    assert_eq!((devices[1].index, devices[1].name.as_str()), (1, "Camera 2"));
    assert_eq!(devices[1].alt_name.as_deref(), Some("/dev/video2"));
}

#[test]
fn numbered_files_stand_in_for_a_silent_kernel() {
    let mut files = vec![false; 40];
    files[3] = true;
    files[39] = true;
    let devices = list_devices(&Listing::Linux { nodes: vec![], files }).unwrap();
    assert_eq!(devices.len(), 1);
    assert_eq!((devices[0].index, devices[0].name.as_str()), (0, "Video Device 3"));
    assert_eq!(devices[0].alt_name.as_deref(), Some("/dev/video3"));
}

#[test]
fn a_lone_camera_is_the_first_whatever_its_number() {
    let nodes = vec![node("video2", true, Some("Webcam"))];
    let devices = list_devices(&Listing::Linux { nodes, files: vec![] }).unwrap();
    assert_eq!(devices[0].index, 0);
    let chosen = choose_device(&devices, 0).unwrap();
    assert_eq!(chosen.alt_name.as_deref(), Some("/dev/video2"));
    assert!(choose_device(&devices, 2).is_err());
}

#[test]
fn a_listing_without_cameras_is_an_error() {
    let said = |l: Listing| list_devices(&l).unwrap_err().to_string();
    assert!(said(Listing::Windows { printed: "".into() }).contains("Windows camera privacy settings"));
    assert!(said(Listing::MacOs { printed: "".into() }).contains("macOS System Settings"));
    assert!(said(Listing::Linux { nodes: vec![], files: vec![] }).contains("/dev/video*"));
    assert_eq!(list_devices(&Listing::Windows { printed: DEVICE_LIST.into() }).unwrap().len(), 2);
}

#[test]
fn a_missing_index_lists_what_there_is() {
    let devices = parse_dshow_devices(DEVICE_LIST);
    assert_eq!(choose_device(&devices, 1).unwrap().name, "OBS Virtual Camera");
    assert_eq!(
        choose_device(&devices, 7),
        Err(DetectError::Camera(
            "no device at index 7. Available:\n  camera:0  Integrated Webcam\n  camera:1  OBS Virtual Camera".into()
        ))
    );
}

#[test]
fn ffmpeg_is_told_the_mode_and_the_device() {
    let device = CameraDevice { index: 1, name: "Cam".into(), alt_name: None };
    assert_eq!(
        capture_args(Platform::Windows, &settings(), &device).join(" "),
        "-v error -nostdin -f dshow -rtbufsize 128M -vcodec mjpeg -video_size 1280x720 -framerate 30 -i video=Cam"
    );
    assert_eq!(
        capture_args(Platform::MacOs, &settings(), &device).join(" "),
        "-v error -nostdin -f avfoundation -framerate 30 -video_size 1280x720 -i 1:none"
    );
    let raw = CaptureConfig { prefer_mjpeg: false, ..settings() };
    assert_eq!(
        capture_args(Platform::Linux, &raw, &device).join(" "),
        "-v error -nostdin -f v4l2 -video_size 1280x720 -framerate 30 -i /dev/video1"
    );
    assert_eq!(camera_name(&device), "camera:1 (Cam)");
    assert!(open_failure("no frame", &raw).to_string().contains("You asked for raw 1280x720 @ 30 fps;"));
}

#[test]
fn helpers_and_help_are_named() {
    assert_eq!(helper_file("ffmpeg", true), "ffmpeg.exe");
    assert_eq!(helper_file("ffmpeg", false), "ffmpeg");
    assert!(FFMPEG_MISSING_HELP.contains("winget install --id Gyan.FFmpeg -e"));
}

#[test]
fn a_probe_reads_dimensions_and_rates() {
    let printed = "width=1920\r\nheight= 1080 \navg_frame_rate=30000/1001\nnoise\navg_frame_rate=0/0\n";
    let probe = probe_video("clip.mp4", printed).unwrap();
    assert_eq!((probe.width, probe.height), (1920, 1080));
    assert_eq!(
        probe.rates,
        vec![
            Rate { numerator: "30000".into(), denominator: "1001".into() },
            Rate { numerator: "0".into(), denominator: "0".into() },
        ]
    );
    for bad in ["", "width=1920\n", "width=0\nheight=2\n", "width=1\nheight=2\nwidth=wide\n"] {
        assert_eq!(
            probe_video("clip.mp4", bad).unwrap_err(),
            DetectError::source("clip.mp4", "ffprobe reported no video stream dimensions")
        );
    }
    let said = probe_failure("clip.mp4", " moov atom not found \n").to_string();
    assert!(said.contains("clip.mp4") && said.contains("moov atom not found"), "{said}");
    assert_eq!(decode_args("a b.mp4").join("|"), "-v|error|-nostdin|-i|a b.mp4");
    assert_eq!(probe_args("a.mp4").last().unwrap(), "a.mp4");
}

/// A directory of one-colour pictures, read the way a caller would.
fn read(src: &mut ImageDirSource, pictures: &[(&str, u32, u32, [u8; 3])]) -> Result<Option<Frame>, DetectError> {
    let Some(name) = src.next_file() else {
        return Ok(None);
    };
    let (_, w, h, fill) = pictures.iter().find(|p| p.0 == name).unwrap();
    let mut data = Vec::new();
    for _ in 0..w * h {
        data.extend_from_slice(fill);
    }
    src.accept(&name, *w, *h, data).map(Some)
}

#[test]
fn image_dir_yields_frames_in_filename_order_then_stops() {
    let pictures = [("frame_0002.png", 8, 4, [0, 255, 0]), ("frame_0001.png", 8, 4, [255, 0, 0])];
    let names = vec!["frame_0002.png".to_string(), "frame_0001.png".to_string(), "notes.txt".to_string()];
    let files = list_images("clip", &names).unwrap();

    let mut src = ImageDirSource::new("clip", files, 8, 4, 30);
    assert_eq!(src.len(), 2);
    assert_eq!(src.resolution(), (8, 4));

    let f0 = read(&mut src, &pictures).unwrap().unwrap();
    assert_eq!(f0.seq, 0);
    assert_eq!(f0.data.len(), f0.expected_len());
    assert_eq!(&f0.data[0..3], &[255, 0, 0], "first file should sort first");

    let f1 = read(&mut src, &pictures).unwrap().unwrap();
    assert_eq!(f1.seq, 1);
    assert_eq!(&f1.data[0..3], &[0, 255, 0]);
    assert!(f1.captured_at >= f0.captured_at);

    assert!(read(&mut src, &pictures).unwrap().is_none());
    assert!(read(&mut src, &pictures).unwrap().is_none(), "exhausted source stays exhausted");
}

#[test]
fn image_dir_rejects_a_resolution_change_mid_sequence() {
    let pictures = [("a.png", 8, 4, [1, 2, 3]), ("b.png", 16, 4, [1, 2, 3])];
    let names = vec!["a.png".to_string(), "b.png".to_string()];
    let mut src = ImageDirSource::new("clip", list_images("clip", &names).unwrap(), 8, 4, 30);
    assert!(read(&mut src, &pictures).unwrap().is_some());
    let err = read(&mut src, &pictures).unwrap_err().to_string();
    assert!(err.contains("resolution changed"), "{err}");
    assert_eq!(err, "source b.png: resolution changed mid-sequence: expected 8x4, got 16x4");
    assert_eq!(src.seq(), 1);
}

#[test]
fn empty_dir_fails_with_a_message_that_says_what_it_wanted() {
    let err = list_images("clip", &vec![]).unwrap_err().to_string();
    assert!(err.contains("no images found"), "{err}");
    assert!(err.contains("png"), "{err}");
}

#[test]
fn images_are_known_by_their_extension() {
    let names: Vec<String> = ["b.JPEG", "a.webp", ".png", "c.tiff", "d.bmp", "e", "A.jpg", "x.PnG"]
        .iter()
        .map(|s| s.to_string())
        .collect();
    let files = list_images("clip", &names).unwrap();
    assert_eq!(files, vec!["A.jpg", "a.webp", "b.JPEG", "d.bmp", "x.PnG"]);
    let src = ImageDirSource::new("clip", files, 1, 1, 12);
    assert_eq!(src.name(), "dir:clip");
    assert_eq!(src.nominal_fps(), 12);
    assert!(!src.is_empty());
}

struct Silent;

impl FrameSource for Silent {
    fn next_frame(&mut self) -> Result<Option<Frame>, DetectError> {
        Ok(None)
    }

    fn resolution(&self) -> (u32, u32) {
        (0, 0)
    }
}

#[test]
fn a_source_is_unknown_unless_it_says_otherwise() {
    let mut src = Silent;
    assert_eq!(src.name(), "unknown");
    assert_eq!(src.nominal_fps(), None);
    assert!(src.next_frame().unwrap().is_none());
    assert_eq!(src.resolution(), (0, 0));
}

#[test]
fn missing_video_file_is_reported_before_ffmpeg_is_involved() {
    let err = VideoFileSource::require("does/not/exist.mp4", false).unwrap_err().to_string();
    assert!(err.contains("does not exist"), "{err}");
    assert!(VideoFileSource::require("clip.mp4", true).is_ok());
}

#[test]
fn a_measured_video_says_what_it_is() {
    let probe = VideoProbe { width: 640, height: 360, rates: vec![] };
    let fps = Number { bits: 25.0f64.to_bits() };
    let source = VideoFileSource::new("a b.mp4", &probe, fps);
    assert_eq!(source.name(), "file:a b.mp4");
    assert_eq!(source.resolution(), (640, 360));
    assert_eq!(source.nominal_fps(), fps);
}

#[test]
fn a_camera_hands_out_its_first_frame_once() {
    let device = CameraDevice { index: 2, name: "Cam".into(), alt_name: None };
    let mut first = Frame::empty();
    first.seq = 41;
    let mut camera = CameraSource::new(&settings(), device.clone(), Some(first));
    assert_eq!(camera.name(), "camera:2 (Cam)");
    assert_eq!(camera.device(), &device);
    assert!(camera.is_mjpeg());
    assert_eq!((camera.resolution(), camera.nominal_fps()), ((1280, 720), 30));
    assert_eq!(camera.take_primed().map(|f| f.seq), Some(41));
    assert!(camera.take_primed().is_none());
}

#[test]
fn listings_printed_one_after_the_other_are_both_read() {
    let more = "[dshow @ 0x1] \"Second Cam\" (video)\n[dshow @ 0x1]   Alternative name \"@device_b\"";
    let alone = parse_dshow_devices(DEVICE_LIST);
    let joined = parse_dshow_devices(&format!("{DEVICE_LIST}\n{more}"));
    assert_eq!(joined.len(), alone.len() + 1);
    assert_eq!(joined[..alone.len()], alone[..]);
    assert_eq!(joined[alone.len()].index, alone.len());
    assert_eq!(joined[alone.len()].alt_name.as_deref(), Some("@device_b"));
}

#[test]
fn a_directory_is_played_once_and_stays_ended() {
    let files: Vec<String> = vec!["a.png".into(), "b.png".into()];
    let mut src = ImageDirSource::new("clip", files, 1, 1, 30);
    for (i, name) in ["a.png", "b.png"].iter().enumerate() {
        assert_eq!(src.next_file().as_deref(), Some(*name));
        let frame = src.accept(name, 1, 1, vec![0, 0, 0]).unwrap();
        assert_eq!(frame.seq, i as u64);
    }
    for _ in 0..3 {
        assert_eq!(src.next_file(), None);
    }
    assert_eq!(src.seq(), 2);
}
