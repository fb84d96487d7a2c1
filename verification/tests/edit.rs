use iyes_mesh::edit::{choose_user_data, is_dropped, kept_meshes};

#[test]
fn replacement_goes_before_everything() {
    let new = [1u8, 2];
    let old = [3u8];
    assert_eq!(choose_user_data(Some(&new), Some(&old), false), Some(&new[..]));
    assert_eq!(choose_user_data(Some(&new), Some(&old), true), Some(&new[..]));
    assert_eq!(choose_user_data(Some(&new), None, true), Some(&new[..]));
    assert_eq!(choose_user_data(Some(&[]), Some(&old), false), Some(&[][..]));
}

#[test]
fn existing_user_data_stays_unless_dropped() {
    let old = [3u8];
    assert_eq!(choose_user_data(None, Some(&old), false), Some(&old[..]));
    assert_eq!(choose_user_data(None, Some(&old), true), None);
    assert_eq!(choose_user_data(None, None, false), None);
    assert_eq!(choose_user_data(None, None, true), None);
}

#[test]
fn dropped_places() {
    assert!(is_dropped(&[3, 1, 3], 3));
    assert!(is_dropped(&[3, 1, 3], 1));
    assert!(!is_dropped(&[3, 1, 3], 0));
    assert!(!is_dropped(&[3, 1, 3], 2));
    assert!(!is_dropped(&[], 0));
}

#[test]
fn kept_places_rise_and_leave_the_dropped_out() {
    assert_eq!(kept_meshes(5, &[]), vec![0, 1, 2, 3, 4]);
    assert_eq!(kept_meshes(5, &[3, 1]), vec![0, 2, 4]);
    assert_eq!(kept_meshes(5, &[1, 3, 1, 1]), vec![0, 2, 4]);
    assert_eq!(kept_meshes(5, &[0, 4]), vec![1, 2, 3]);
    assert_eq!(kept_meshes(3, &[0, 1, 2]), Vec::<usize>::new());
    assert_eq!(kept_meshes(0, &[]), Vec::<usize>::new());
    assert_eq!(kept_meshes(0, &[0]), Vec::<usize>::new());
    // places without a mesh drop nothing
    assert_eq!(kept_meshes(2, &[2, 7, usize::MAX]), vec![0, 1]);
}
