use raytracer::scenes::Scene;

#[test]
fn there_are_eight_scenes() {
    let all = [
        Scene::Random,
        Scene::TwoSpheres,
        Scene::TwoPerlinSpheres,
        Scene::Earth,
        Scene::SimpleLight,
        Scene::CornellBox,
        Scene::CornellSmoke,
        Scene::FinalScene,
    ];
    for (i, a) in all.iter().enumerate() {
        for (j, b) in all.iter().enumerate() {
            assert_eq!(a == b, i == j);
        }
    }
    assert_eq!(format!("{:?}", Scene::CornellBox), "CornellBox");
}
