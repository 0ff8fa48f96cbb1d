//! End-to-end conversation scenarios driven through the state machine, the
//! binarize stage and the publish plan, with the outside collaborators'
//! answers fed back in by hand.

use leonardo::index::insert_entry;
use leonardo::machine::{after_conversion, after_store_check, handle, Event, State, Step};
use leonardo::publish::plan_publish;
use leonardo::raster::binarize;
use leonardo::registry::SessionRegistry;

fn png_2x2_one_transparent() -> Vec<u8> {
    let mut img = image::RgbaImage::new(2, 2);
    img.put_pixel(0, 0, image::Rgba([0, 0, 0, 0]));
    img.put_pixel(1, 0, image::Rgba([10, 20, 30, 255]));
    img.put_pixel(0, 1, image::Rgba([40, 50, 60, 255]));
    img.put_pixel(1, 1, image::Rgba([70, 80, 90, 255]));
    let mut buf: Vec<u8> = Vec::new();
    img.write_to(&mut std::io::Cursor::new(&mut buf), image::ImageFormat::Png)
        .expect("encoding a small image must succeed");
    buf
}

#[test]
fn full_submission_reaches_publisher_with_derived_names() {
    // Start the conversation.
    let step = handle(State::Idle, Event::StartCommand);
    let state = match step {
        Step::Done { state, .. } => state,
        _ => panic!("expected a completed transition"),
    };

    // App identifier; the store check passes.
    let step = handle(state, Event::TextReceived { text: "com.example.app".to_string() });
    let app_identifier = match step {
        Step::CheckStore { app_identifier } => app_identifier,
        _ => panic!("expected a store check demand"),
    };
    let (state, _) = after_store_check(app_identifier, Some(true));

    // Upload the icon image.
    let step = handle(state, Event::DocumentReceived { image_ref: "file-42".to_string() });
    let state = match step {
        Step::Done { state, .. } => state,
        _ => panic!("expected a completed transition"),
    };

    // Icon name, then description; the machine demands the conversion.
    let step = handle(state, Event::TextReceived { text: "testicon".to_string() });
    let state = match step {
        Step::Done { state, .. } => state,
        _ => panic!("expected a completed transition"),
    };
    let step = handle(state, Event::TextReceived { text: "desc".to_string() });
    let (app_identifier, image_ref, icon_name, description) = match step {
        Step::Convert { app_identifier, image_ref, icon_name, description } => {
            (app_identifier, image_ref, icon_name, description)
        }
        _ => panic!("expected a conversion demand"),
    };
    assert_eq!(image_ref, "file-42");

    // The transport would download the image by its handle; binarize it.
    let png = png_2x2_one_transparent();
    let bitmap = binarize(&png).expect("a valid image must binarize");
    let mut expected: Vec<u8> = Vec::new();
    expected.extend_from_slice(b"P6\n2 2\n255\n");
    expected.extend_from_slice(&[255, 255, 255, 0, 0, 0, 0, 0, 0, 0, 0, 0]);
    assert_eq!(bitmap, expected);

    // The external tracer and recoder would run next; feed their stand-in
    // result back as the vector bytes.
    let vector_bytes = bitmap;
    let (state, _) = after_conversion(app_identifier, icon_name, description, Ok(vector_bytes));

    // Confirm; the machine demands the publish.
    let step = handle(state, Event::ChoiceReceived { token: "yes".to_string() });
    let submission = match step {
        Step::Publish { submission } => submission,
        _ => panic!("expected a publish demand"),
    };

    let plan = plan_publish(&submission).expect("a safe submission must plan");
    assert_eq!(plan.branch_name, "bot/icon_testicon");
    assert_eq!(plan.drawable_file_name, "themed_icon_testicon.xml");
    assert!(plan.index_line.contains("package=\"com.example.app\""));

    // The index mutation the publisher would apply.
    let index = "<icons>\n</icons>\n";
    let mutated = insert_entry(index, &plan.index_line).expect("insertion must succeed");
    assert_eq!(
        mutated,
        "<icons>\n    <icon drawable=\"@drawable/themed_icon_testicon\" package=\"com.example.app\" />\n</icons>\n"
    );
}

#[test]
fn two_sessions_publish_both_entries() {
    // Two sessions confirm at the same instant; the publisher runs them one
    // after the other against the shared index, and both entries land.
    let mut registry = SessionRegistry::new();
    registry.put_state(
        1,
        State::ConfirmingSubmission {
            vector_bytes: vec![1],
            app_identifier: "com.first.app".to_string(),
            icon_name: "firsticon".to_string(),
            description: "d1".to_string(),
        },
    );
    registry.put_state(
        2,
        State::ConfirmingSubmission {
            vector_bytes: vec![2],
            app_identifier: "com.second.app".to_string(),
            icon_name: "secondicon".to_string(),
            description: "d2".to_string(),
        },
    );

    let mut index = "<icons>\n</icons>\n".to_string();
    let mut branches: Vec<String> = Vec::new();
    for id in [1i64, 2i64] {
        let state = registry.take_state(id);
        let step = handle(state, Event::ChoiceReceived { token: "yes".to_string() });
        let submission = match step {
            Step::Publish { submission } => submission,
            _ => panic!("expected a publish demand"),
        };
        let plan = plan_publish(&submission).expect("a safe submission must plan");
        index = insert_entry(&index, &plan.index_line).expect("insertion must succeed");
        branches.push(plan.branch_name);
        registry.put_state(id, State::Idle);
    }

    assert!(branches.contains(&"bot/icon_firsticon".to_string()));
    assert!(branches.contains(&"bot/icon_secondicon".to_string()));
    assert!(index.contains("package=\"com.first.app\""));
    assert!(index.contains("package=\"com.second.app\""));
    assert_eq!(
        index,
        "<icons>\n    <icon drawable=\"@drawable/themed_icon_firsticon\" package=\"com.first.app\" />\n    <icon drawable=\"@drawable/themed_icon_secondicon\" package=\"com.second.app\" />\n</icons>\n"
    );
}

#[test]
fn registry_starts_sessions_idle_and_keeps_state() {
    let mut registry = SessionRegistry::new();
    let state = registry.take_state(7);
    assert!(matches!(state, State::Idle));
    registry.put_state(7, State::AwaitingAppIdentifier);
    let state = registry.take_state(7);
    assert!(matches!(state, State::AwaitingAppIdentifier));
}
