use kapt::audio::parse_audio_sources;

const LISTING: &str = "Source #0\n\tState: SUSPENDED\n\tName: alsa_output.monitor\n\tProperties:\n\t\tdevice.description = \"Monitor of Built-in Audio\"\nSource #12\n\tState: RUNNING\n\t\tdevice.description = \"Built-in Audio Analog Stereo\"\n";

#[test]
fn pairs_descriptions_with_ids() {
    let sources = parse_audio_sources(LISTING).unwrap();
    assert_eq!(sources.len(), 2);
    assert_eq!(sources[0].description, "Monitor of Built-in Audio");
    assert_eq!(sources[0].id, 0);
    assert_eq!(sources[1].description, "Built-in Audio Analog Stereo");
    assert_eq!(sources[1].id, 12);
}

#[test]
fn empty_listing_gives_no_sources() {
    assert_eq!(parse_audio_sources("").unwrap().len(), 0);
}

#[test]
fn unreadable_id_gives_none() {
    assert!(parse_audio_sources("Source #x\n\tdevice.description = \"A\"\n").is_none());
}

#[test]
fn fewer_ids_than_descriptions_gives_none() {
    assert!(parse_audio_sources("Source #1\n device.description = \"A\"\n device.description = \"B\"\n").is_none());
}

#[test]
fn extra_ids_are_ignored() {
    let sources = parse_audio_sources("Source #3\nSource #4\n device.description = \"Only\"\n").unwrap();
    assert_eq!(sources.len(), 1);
    assert_eq!(sources[0].id, 3);
}

#[test]
fn empty_description_is_skipped() {
    let sources = parse_audio_sources("Source #1\n device.description = \"\"\nSource #2\n device.description = \"B\"\n").unwrap();
    assert_eq!(sources.len(), 1);
    assert_eq!(sources[0].description, "B");
    assert_eq!(sources[0].id, 1);
}
