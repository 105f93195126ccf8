use neural_network::{Draws, Layer, NetworkError, Neuron};
use rand::{Rng, RngCore, SeedableRng};
use rand_chacha::ChaCha8Rng;

fn draw_values(rng: &mut dyn RngCore, count: usize) -> Draws<f32> {
    Draws::new((0..count).map(|_| rng.gen_range(-1.0..=1.0)).collect())
}

fn fire(bias: f32, weights: &[f32], inputs: &[f32]) -> f32 {
    assert_eq!(inputs.len(), weights.len());
    let output = inputs
        .iter()
        .zip(weights)
        .map(|(input, weight)| input * weight)
        .sum::<f32>();
    (bias + output).max(0.0)
}

#[test]
fn layer_test_biases() {
    let mut rng = ChaCha8Rng::from_seed(Default::default());
    let mut draws = draw_values(&mut rng, 8);
    let layer = Layer::random(&mut draws, 3, 2).unwrap();

    let actual_biases: Vec<f32> = layer.neurons.iter().map(|neuron| neuron.bias).collect();
    let expected_biases: Vec<f32> = vec![-0.6255188, 0.5238807];

    assert!(approx::Relative::default().eq(&actual_biases.as_slice(), &expected_biases.as_slice()));
}

#[test]
fn layer_test_weights() {
    let mut rng = ChaCha8Rng::from_seed(Default::default());
    let mut draws = draw_values(&mut rng, 8);
    let layer = Layer::random(&mut draws, 3, 2).unwrap();

    let actual_weights: Vec<&[f32]> = layer
        .neurons
        .iter()
        .map(|neuron| neuron.weights.as_slice())
        .collect();
    let expected_weights: Vec<&[f32]> = vec![
        &[0.67383957, 0.8181262, 0.26284897],
        &[-0.53516835, 0.069369674, -0.7648182],
    ];

    assert!(approx::Relative::default().eq(&actual_weights.as_slice(), &expected_weights.as_slice()));
}

#[test]
fn layer_test() {
    let neurons = (
        Neuron::new(0.0, vec![0.1, 0.2, 0.3]),
        Neuron::new(0.0, vec![0.4, 0.5, 0.6]),
    );
    let layer = Layer::new(vec![neurons.0.clone(), neurons.1.clone()]);

    let inputs: &[f32] = &[-0.5, 0.0, 0.5];

    let actual = layer.propagate(inputs.to_vec(), &fire);
    let expected = vec![
        neurons.0.propagate(inputs, &fire),
        neurons.1.propagate(inputs, &fire),
    ];

    assert!(approx::Relative::default().eq(&actual.as_slice(), &expected.as_slice()));
}

#[test]
fn neuron_propagate_gives_bias_plus_weighted_sum() {
    let neuron = Neuron::new(0.5f32, vec![-0.3, 0.8]);

    let output = neuron.propagate(&[0.5, 1.0], &fire);

    assert!(approx::Relative::default().eq(&output, &1.15f32));
}

#[test]
fn neuron_propagate_floors_at_zero() {
    let neuron = Neuron::new(0.5f32, vec![-0.3, 0.8]);

    let output = neuron.propagate(&[-10.0, -10.0], &fire);

    assert_eq!(output, 0.0);
}

#[test]
fn neuron_random_takes_bias_before_weights() {
    let mut draws = Draws::new(vec![1.0f32, 2.0, 3.0, 4.0, 5.0]);

    let neuron = Neuron::random(&mut draws, 3).unwrap();

    assert_eq!(neuron.bias, 1.0);
    assert_eq!(neuron.weights, vec![2.0, 3.0, 4.0]);
    assert_eq!(draws.remaining(), 1);
    assert_eq!(draws.next(), Some(5.0));
    assert_eq!(draws.next(), None);
}

#[test]
fn neuron_random_without_inputs_takes_one_draw() {
    let mut draws = Draws::new(vec![1.0f32, 2.0]);

    let neuron = Neuron::random(&mut draws, 0).unwrap();

    assert_eq!(neuron.bias, 1.0);
    assert!(neuron.weights.is_empty());
    assert_eq!(draws.remaining(), 1);
}

#[test]
fn neuron_random_refuses_a_short_supply() {
    let mut draws = Draws::new(vec![1.0f32, 2.0, 3.0]);

    let result = Neuron::random(&mut draws, 3);

    assert_eq!(result.err(), Some(NetworkError::InsufficientWeights));
    assert_eq!(draws.remaining(), 3);
    assert_eq!(draws.next(), Some(1.0));
}

#[test]
fn neuron_random_refuses_a_width_past_the_limit() {
    let mut draws = Draws::new(vec![1.0f32]);

    let result = Neuron::random(&mut draws, usize::MAX);

    assert_eq!(result.err(), Some(NetworkError::InsufficientWeights));
    assert_eq!(draws.remaining(), 1);
}

#[test]
fn layer_random_fills_neurons_one_after_the_other() {
    let mut draws = Draws::new(vec![1.0f32, 2.0, 3.0, 4.0, 5.0, 6.0, 7.0]);

    let layer = Layer::random(&mut draws, 2, 2).unwrap();

    assert_eq!(layer.neurons.len(), 2);
    assert_eq!(layer.neurons[0].bias, 1.0);
    assert_eq!(layer.neurons[0].weights, vec![2.0, 3.0]);
    assert_eq!(layer.neurons[1].bias, 4.0);
    assert_eq!(layer.neurons[1].weights, vec![5.0, 6.0]);
    assert_eq!(draws.remaining(), 1);
}

#[test]
fn layer_random_refuses_a_short_supply() {
    let mut draws = Draws::new(vec![1.0f32, 2.0, 3.0, 4.0, 5.0]);

    let result = Layer::random(&mut draws, 2, 2);

    assert_eq!(result.err(), Some(NetworkError::InsufficientWeights));
    assert_eq!(draws.remaining(), 5);
}

#[test]
fn layer_random_refuses_a_size_past_the_limit() {
    let mut draws = Draws::new(vec![1.0f32, 2.0]);

    let result = Layer::random(&mut draws, usize::MAX, 2);

    assert_eq!(result.err(), Some(NetworkError::InsufficientWeights));
    assert_eq!(draws.remaining(), 2);
}

#[test]
fn layer_random_without_neurons_takes_nothing() {
    let mut draws = Draws::new(vec![1.0f32, 2.0]);

    let layer = Layer::random(&mut draws, usize::MAX, 0).unwrap();

    assert!(layer.neurons.is_empty());
    assert_eq!(draws.remaining(), 2);
}

#[test]
fn layer_accepts_only_the_width_of_its_neurons() {
    let layer = Layer::new(vec![
        Neuron::new(0.0f32, vec![0.1, 0.2, 0.3]),
        Neuron::new(0.0f32, vec![0.4, 0.5, 0.6]),
    ]);
    let uneven = Layer::new(vec![
        Neuron::new(0.0f32, vec![0.1, 0.2, 0.3]),
        Neuron::new(0.0f32, vec![0.4, 0.5]),
    ]);
    let empty: Layer<f32> = Layer::new(vec![]);

    assert!(layer.accepts(3));
    assert!(!layer.accepts(2));
    assert!(!uneven.accepts(3));
    assert!(!uneven.accepts(2));
    assert!(empty.accepts(0));
    assert!(empty.accepts(7));
}

#[test]
fn layer_propagate_keeps_the_order_of_the_neurons() {
    let layer = Layer::new(vec![
        Neuron::new(1.0f32, vec![0.0]),
        Neuron::new(2.0f32, vec![0.0]),
        Neuron::new(3.0f32, vec![0.0]),
    ]);

    let outputs = layer.propagate(vec![9.0], &fire);

    assert_eq!(outputs, vec![1.0, 2.0, 3.0]);
}

#[test]
fn draws_hand_out_values_in_order() {
    let mut draws = Draws::new(vec![7u32, 8, 9]);

    assert_eq!(draws.remaining(), 3);
    assert_eq!(draws.next(), Some(7));
    assert_eq!(draws.next(), Some(8));
    assert_eq!(draws.remaining(), 1);
    assert_eq!(draws.next(), Some(9));
    assert_eq!(draws.remaining(), 0);
    assert_eq!(draws.next(), None);
    assert_eq!(draws.next(), None);
}
